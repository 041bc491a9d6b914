//! The native transport: calls by correlation number, the identify handshake,
//! and events.

use crate::host_io::format::{hex_char, hex_digit};
use crate::host_io::parse_error::{around, enclose};
use crate::host_io::runtime_events::{
    FaultEvent, McuLogEvent, McuLogView, RuntimeEvent, RuntimeEventView,
};
use crate::text::{copy_text, decimal, push_decimal};
use crate::transport::{TransportError, TransportErrorView};
use vstd::prelude::*;

verus! {

/// The channel of calls and their responses.
pub const CHANNEL_CONTROL: u8 = 0;

/// The channel of events.
pub const CHANNEL_EVENTS: u8 = 1;

/// The kind of a native message, as far as the host tells them apart.
#[derive(Debug, Clone, Copy, PartialEq, Eq, Structural)]
pub enum MessageKind {
    IdentifyResponse,
    FaultEvent,
    StatusHeartbeat,
    McuLog,
    /// Another event, by its number.
    OtherEvent(u16),
    /// A request or a response, by its number.
    Other(u16),
}

/// Whether a kind is an event.
pub open spec fn is_event_kind(k: MessageKind) -> bool {
    match k {
        MessageKind::IdentifyResponse => false,
        MessageKind::Other(_) => false,
        _ => true,
    }
}

impl MessageKind {
    /// Whether the message is an event.
    pub fn is_event(&self) -> (r: bool)
        ensures
            r == is_event_kind(*self),
    {
        match self {
            MessageKind::IdentifyResponse => false,
            MessageKind::Other(_) => false,
            _ => true,
        }
    }
}

/// What the host expects of an identify response.
#[derive(Debug)]
pub struct NativeProtocol {
    pub identify_response_len: usize,
    pub proto_version: u8,
    pub schema_hash: Vec<u8>,
}

/// Model of [`NativeProtocol`].
#[verifier::ext_equal]
pub struct NativeProtocolView {
    pub identify_response_len: usize,
    pub proto_version: u8,
    pub schema_hash: Seq<u8>,
}

impl View for NativeProtocol {
    type V = NativeProtocolView;

    open spec fn view(&self) -> NativeProtocolView {
        NativeProtocolView {
            identify_response_len: self.identify_response_len,
            proto_version: self.proto_version,
            schema_hash: self.schema_hash@,
        }
    }
}

/// The fields of an identify response.
#[derive(Debug)]
pub struct IdentifyFields {
    pub proto_version: u8,
    pub schema_hash: Vec<u8>,
    pub reset_epoch: u32,
    pub capabilities: u64,
}

/// Model of [`IdentifyFields`].
#[verifier::ext_equal]
pub struct IdentifyFieldsView {
    pub proto_version: u8,
    pub schema_hash: Seq<u8>,
    pub reset_epoch: u32,
    pub capabilities: u64,
}

impl View for IdentifyFields {
    type V = IdentifyFieldsView;

    open spec fn view(&self) -> IdentifyFieldsView {
        IdentifyFieldsView {
            proto_version: self.proto_version,
            schema_hash: self.schema_hash@,
            reset_epoch: self.reset_epoch,
            capabilities: self.capabilities,
        }
    }
}

/// The fields of an event.
#[derive(Debug)]
pub enum NativeEvent {
    Fault { fault_code: u16, fault_detail: u32, segment_id: u32 },
    Heartbeat { retired_counts: Vec<u32> },
    Log(McuLogEvent),
}

/// Model of [`NativeEvent`].
#[verifier::ext_equal]
pub enum NativeEventView {
    Fault { fault_code: u16, fault_detail: u32, segment_id: u32 },
    Heartbeat { retired_counts: Seq<u32> },
    Log(McuLogView),
}

impl View for NativeEvent {
    type V = NativeEventView;

    open spec fn view(&self) -> NativeEventView {
        match self {
            NativeEvent::Fault { fault_code, fault_detail, segment_id } => NativeEventView::Fault {
                fault_code: *fault_code,
                fault_detail: *fault_detail,
                segment_id: *segment_id,
            },
            NativeEvent::Heartbeat { retired_counts } => NativeEventView::Heartbeat {
                retired_counts: retired_counts@,
            },
            NativeEvent::Log(l) => NativeEventView::Log(l@),
        }
    }
}

/// The header of a native message. The kind is missing where its number is
/// unknown.
#[derive(Debug, Clone, Copy, PartialEq, Eq, Structural)]
pub struct NativeHeader {
    pub kind: Option<MessageKind>,
    pub correlation_id: u32,
}

/// A native frame, taken apart as far as its kind asks for: `identify` holds
/// the fields of an identify response, `event` those of an event, where they
/// could be read.
#[derive(Debug)]
pub struct NativeFrame {
    pub channel: u8,
    pub payload_len: usize,
    pub header: Option<NativeHeader>,
    pub body: Vec<u8>,
    pub identify: Option<IdentifyFields>,
    pub event: Option<NativeEvent>,
}

/// Model of [`NativeFrame`].
#[verifier::ext_equal]
pub struct NativeFrameView {
    pub channel: u8,
    pub payload_len: usize,
    pub header: Option<NativeHeader>,
    pub body: Seq<u8>,
    pub identify: Option<IdentifyFieldsView>,
    pub event: Option<NativeEventView>,
}

impl View for NativeFrame {
    type V = NativeFrameView;

    open spec fn view(&self) -> NativeFrameView {
        NativeFrameView {
            channel: self.channel,
            payload_len: self.payload_len,
            header: self.header,
            body: self.body@,
            identify: match self.identify {
                Some(i) => Some(i@),
                None => None,
            },
            event: match self.event {
                Some(e) => Some(e@),
                None => None,
            },
        }
    }
}

/// What a call gave.
#[derive(Debug)]
pub enum KalicoCallOutcome {
    Response { kind: MessageKind, body: Vec<u8> },
    Reset,
}

/// Model of [`KalicoCallOutcome`].
#[verifier::ext_equal]
pub enum CallOutcomeView {
    Response { kind: MessageKind, body: Seq<u8> },
    Reset,
}

impl View for KalicoCallOutcome {
    type V = CallOutcomeView;

    open spec fn view(&self) -> CallOutcomeView {
        match self {
            KalicoCallOutcome::Response { kind, body } => CallOutcomeView::Response {
                kind: *kind,
                body: body@,
            },
            KalicoCallOutcome::Reset => CallOutcomeView::Reset,
        }
    }
}

/// What an identify handshake gave.
#[derive(Debug, Clone, Copy, PartialEq, Eq, Structural)]
pub struct IdentifyOutcome {
    pub reset_epoch: u32,
    pub capabilities: u64,
}

/// A call that waits for its response. Its caller is known by `token`.
#[derive(Debug, Clone, Copy, PartialEq, Eq, Structural)]
pub struct PendingKalicoCall {
    pub correlation_id: u32,
    pub token: u64,
    pub deadline: u64,
}

/// The calls in flight and what identify has found.
#[derive(Debug)]
pub struct KalicoNativeState {
    pub protocol: NativeProtocol,
    pub pending: Vec<PendingKalicoCall>,
    pub next_correlation_id: u32,
    pub identify_pending: Option<u64>,
    pub reset_epoch: Option<u32>,
    pub identified: bool,
}

/// Model of [`KalicoNativeState`].
#[verifier::ext_equal]
pub struct NativeView {
    pub protocol: NativeProtocolView,
    pub pending: Seq<PendingKalicoCall>,
    pub next_correlation_id: u32,
    pub identify_pending: Option<u64>,
    pub reset_epoch: Option<u32>,
    pub identified: bool,
}

impl View for KalicoNativeState {
    type V = NativeView;

    open spec fn view(&self) -> NativeView {
        NativeView {
            protocol: self.protocol@,
            pending: self.pending@,
            next_correlation_id: self.next_correlation_id,
            identify_pending: self.identify_pending,
            reset_epoch: self.reset_epoch,
            identified: self.identified,
        }
    }
}

/// Nothing in flight, nothing identified.
pub open spec fn fresh_native(protocol: NativeProtocolView) -> NativeView {
    NativeView {
        protocol,
        pending: Seq::empty(),
        next_correlation_id: 1,
        identify_pending: None,
        reset_epoch: None,
        identified: false,
    }
}

/// The correlation number behind another. Zero is kept for events.
pub open spec fn next_cid(cid: u32) -> u32 {
    if cid == u32::MAX {
        1
    } else {
        (cid + 1) as u32
    }
}

/// The call with a correlation number.
pub open spec fn find_call(s: Seq<PendingKalicoCall>, cid: u32) -> Option<int>
    decreases s.len(),
{
    if s.len() == 0 {
        None
    } else if s[0].correlation_id == cid {
        Some(0)
    } else {
        match find_call(s.skip(1), cid) {
            Some(i) => Some(i + 1),
            None => None,
        }
    }
}

/// The calls without the one with a correlation number.
pub open spec fn without_call(s: Seq<PendingKalicoCall>, cid: u32) -> Seq<PendingKalicoCall> {
    match find_call(s, cid) {
        Some(i) => s.remove(i),
        None => s,
    }
}

/// The calls whose deadline has come, in order.
pub open spec fn overdue(s: Seq<PendingKalicoCall>, now: u64) -> Seq<PendingKalicoCall>
    decreases s.len(),
{
    if s.len() == 0 {
        Seq::empty()
    } else if s.last().deadline <= now {
        overdue(s.drop_last(), now).push(s.last())
    } else {
        overdue(s.drop_last(), now)
    }
}

/// The calls whose deadline has not come, in order.
pub open spec fn in_time(s: Seq<PendingKalicoCall>, now: u64) -> Seq<PendingKalicoCall>
    decreases s.len(),
{
    if s.len() == 0 {
        Seq::empty()
    } else if s.last().deadline <= now {
        in_time(s.drop_last(), now)
    } else {
        in_time(s.drop_last(), now).push(s.last())
    }
}

proof fn lemma_find_call_at(s: Seq<PendingKalicoCall>, cid: u32, k: int)
    requires
        0 <= k <= s.len(),
        forall|j: int| 0 <= j < k ==> (#[trigger] s[j]).correlation_id != cid,
    ensures
        k < s.len() && s[k].correlation_id == cid ==> find_call(s, cid) == Some(k),
        k == s.len() ==> find_call(s, cid) is None,
    decreases s.len(),
{
    if k > 0 {
        let t = s.skip(1);
        assert forall|j: int| 0 <= j < k - 1 implies (#[trigger] t[j]).correlation_id != cid by {
            assert(t[j] == s[j + 1]);
        }
        lemma_find_call_at(t, cid, k - 1);
        assert(s[0].correlation_id != cid);
        if k < s.len() {
            assert(t[k - 1] == s[k]);
        }
    }
}

/// Two hexadecimal digits.
pub open spec fn hex2(b: u8) -> Seq<char> {
    seq![hex_char((b / 16) as int), hex_char((b % 16) as int)]
}

/// Bytes in hexadecimal digits.
pub open spec fn hex_text_of(b: Seq<u8>) -> Seq<char>
    decreases b.len(),
{
    if b.len() == 0 {
        Seq::empty()
    } else {
        hex_text_of(b.drop_last()) + hex2(b.last())
    }
}

/// Appends two hexadecimal digits.
fn push_hex2(s: &mut String, b: u8)
    ensures
        final(s)@ == old(s)@ + hex2(b),
{
    s.push(hex_digit(b / 16));
    s.push(hex_digit(b % 16));
    proof {
        assert(s@ =~= old(s)@ + hex2(b));
    }
}

/// Bytes in hexadecimal digits.
fn hex_string(b: &Vec<u8>) -> (r: String)
    ensures
        r@ == hex_text_of(b@),
{
    let mut s: String = String::new();
    let mut i: usize = 0;
    proof {
        assert(s@ =~= Seq::<char>::empty());
    }
    while i < b.len()
        invariant
            i <= b@.len(),
            s@ == hex_text_of(b@.take(i as int)),
        decreases b@.len() - i,
    {
        proof {
            assert(b@.take(i + 1).drop_last() =~= b@.take(i as int));
        }
        push_hex2(&mut s, b[i]);
        i += 1;
    }
    proof {
        assert(b@.take(b@.len() as int) =~= b@);
    }
    s
}

/// The complaint about an identify response, if there is one: its length, its
/// shape, its protocol version, its schema.
pub open spec fn identify_complaint(
    p: NativeProtocolView,
    payload_len: usize,
    fields: Option<IdentifyFieldsView>,
) -> Option<Seq<char>> {
    if payload_len != p.identify_response_len {
        Some(
            around(
                around("IdentifyResponse wrong length: got "@, decimal(payload_len as nat), ""@),
                ", expected "@,
                decimal(p.identify_response_len as nat),
            ),
        )
    } else {
        match fields {
            None => Some("IdentifyResponse failed to decode"@),
            Some(f) => if f.proto_version != p.proto_version {
                Some(
                    around(
                        around(
                            "kalico proto_version mismatch — host 0x"@,
                            hex2(p.proto_version),
                            ""@,
                        ),
                        ", MCU 0x"@,
                        hex2(f.proto_version),
                    ),
                )
            } else if f.schema_hash != p.schema_hash {
                Some(
                    around(
                        around(
                            "kalico schema_hash mismatch — host "@,
                            hex_text_of(p.schema_hash),
                            ""@,
                        ),
                        ", MCU "@,
                        hex_text_of(f.schema_hash),
                    ),
                )
            } else {
                None
            },
        }
    }
}

/// Whether two runs of bytes are the same.
fn same_bytes(a: &Vec<u8>, b: &Vec<u8>) -> (r: bool)
    ensures
        r == (a@ == b@),
{
    if a.len() != b.len() {
        return false;
    }
    let mut i: usize = 0;
    while i < a.len()
        invariant
            i <= a@.len(),
            a@.len() == b@.len(),
            forall|j: int| 0 <= j < i ==> a@[j] == b@[j],
        decreases a@.len() - i,
    {
        if a[i] != b[i] {
            return false;
        }
        i += 1;
    }
    proof {
        assert(a@ =~= b@);
    }
    true
}

/// A number in decimal digits.
fn count_text(n: usize) -> (r: String)
    ensures
        r@ == decimal(n as nat),
{
    let mut s: String = String::new();
    push_decimal(&mut s, n as u64);
    proof {
        assert(s@ =~= decimal(n as nat));
    }
    s
}

/// A byte in hexadecimal digits.
fn byte_text(b: u8) -> (r: String)
    ensures
        r@ == hex2(b),
{
    let mut s: String = String::new();
    push_hex2(&mut s, b);
    proof {
        assert(s@ =~= hex2(b));
    }
    s
}

/// Finds what is wrong with an identify response.
fn check_identify(
    p: &NativeProtocol,
    payload_len: usize,
    fields: &Option<IdentifyFields>,
) -> (r: Option<String>)
    ensures
        ({
            let fv = match *fields {
                Some(f) => Some(f@),
                None => None,
            };
            match r {
                Some(s) => identify_complaint(p@, payload_len, fv) == Some(s@),
                None => identify_complaint(p@, payload_len, fv) is None,
            }
        }),
{
    if payload_len != p.identify_response_len {
        let head: String = enclose(
            "IdentifyResponse wrong length: got ",
            count_text(payload_len),
            "",
        );
        let want: String = count_text(p.identify_response_len);
        return Some(enclose(head.as_str(), copy_text(", expected "), want.as_str()));
    }
    match fields {
        None => Some(copy_text("IdentifyResponse failed to decode")),
        Some(f) => {
            if f.proto_version != p.proto_version {
                let head: String = enclose(
                    "kalico proto_version mismatch — host 0x",
                    byte_text(p.proto_version),
                    "",
                );
                let got: String = byte_text(f.proto_version);
                return Some(enclose(head.as_str(), copy_text(", MCU 0x"), got.as_str()));
            }
            if !same_bytes(&f.schema_hash, &p.schema_hash) {
                let head: String = enclose(
                    "kalico schema_hash mismatch — host ",
                    hex_string(&p.schema_hash),
                    "",
                );
                let got: String = hex_string(&f.schema_hash);
                return Some(enclose(head.as_str(), copy_text(", MCU "), got.as_str()));
            }
            None
        },
    }
}

/// What a native frame leads to.
#[allow(inconsistent_fields)]
#[derive(Debug)]
pub enum KalicoDispatchResult {
    /// A call has its response.
    Call { token: u64, outcome: KalicoCallOutcome },
    /// An identify response came, and the handshake that waits for it, if one
    /// does, has its answer.
    Identify { token: Option<u64>, outcome: Result<IdentifyOutcome, TransportError> },
    /// An event is to be dispatched.
    Event(RuntimeEvent),
    /// Nothing.
    Ignored,
}

/// Model of [`KalicoDispatchResult`].
#[verifier::ext_equal]
#[allow(inconsistent_fields)]
pub enum NativeDispatchView {
    Call { token: u64, outcome: CallOutcomeView },
    Identify { token: Option<u64>, outcome: Result<IdentifyOutcome, TransportErrorView> },
    Event(RuntimeEventView),
    Ignored,
}

/// The result of an identify handshake, as a model.
pub open spec fn identify_result(r: Result<IdentifyOutcome, TransportError>) -> Result<
    IdentifyOutcome,
    TransportErrorView,
> {
    match r {
        Ok(o) => Ok(o),
        Err(e) => Err(e@),
    }
}

impl View for KalicoDispatchResult {
    type V = NativeDispatchView;

    open spec fn view(&self) -> NativeDispatchView {
        match self {
            KalicoDispatchResult::Call { token, outcome } => NativeDispatchView::Call {
                token: *token,
                outcome: outcome@,
            },
            KalicoDispatchResult::Identify { token, outcome } => NativeDispatchView::Identify {
                token: *token,
                outcome: identify_result(*outcome),
            },
            KalicoDispatchResult::Event(e) => NativeDispatchView::Event(e@),
            KalicoDispatchResult::Ignored => NativeDispatchView::Ignored,
        }
    }
}

/// What an identify response leads to.
pub open spec fn identify_taken(
    s: NativeView,
    payload_len: usize,
    fields: Option<IdentifyFieldsView>,
) -> (NativeView, NativeDispatchView) {
    match identify_complaint(s.protocol, payload_len, fields) {
        Some(text) => (
            NativeView { identify_pending: None, ..s },
            NativeDispatchView::Identify {
                token: s.identify_pending,
                outcome: Err(TransportErrorView::Parse(text)),
            },
        ),
        None => {
            let f = fields->0;
            (
                NativeView {
                    identify_pending: None,
                    reset_epoch: Some(f.reset_epoch),
                    identified: true,
                    ..s
                },
                NativeDispatchView::Identify {
                    token: s.identify_pending,
                    outcome: Ok(
                        IdentifyOutcome {
                            reset_epoch: f.reset_epoch,
                            capabilities: f.capabilities,
                        },
                    ),
                },
            )
        },
    }
}

/// The event that a native event is: faults, heartbeats and log records, where
/// they could be read.
pub open spec fn native_event(kind: MessageKind, event: Option<NativeEventView>) -> Option<
    RuntimeEventView,
> {
    match (kind, event) {
        (
            MessageKind::FaultEvent,
            Some(NativeEventView::Fault { fault_code, fault_detail, segment_id }),
        ) => Some(
            RuntimeEventView::Fault(
                FaultEvent { fault_code, fault_detail, segment_id, synthesized: false },
            ),
        ),
        (
            MessageKind::StatusHeartbeat,
            Some(NativeEventView::Heartbeat { retired_counts }),
        ) => Some(RuntimeEventView::Heartbeat { retired_counts }),
        (MessageKind::McuLog, Some(NativeEventView::Log(l))) => Some(
            RuntimeEventView::McuLog(l),
        ),
        _ => None,
    }
}

/// What a native frame leads to.
pub open spec fn native_taken(s: NativeView, f: NativeFrameView) -> (
    NativeView,
    NativeDispatchView,
) {
    match f.header {
        None => (s, NativeDispatchView::Ignored),
        Some(h) => match h.kind {
            None => (s, NativeDispatchView::Ignored),
            Some(kind) => if kind == MessageKind::IdentifyResponse {
                identify_taken(s, f.payload_len, f.identify)
            } else if f.channel == CHANNEL_EVENTS || is_event_kind(kind) {
                match native_event(kind, f.event) {
                    Some(e) => (s, NativeDispatchView::Event(e)),
                    None => (s, NativeDispatchView::Ignored),
                }
            } else if h.correlation_id == 0 {
                (s, NativeDispatchView::Ignored)
            } else {
                match find_call(s.pending, h.correlation_id) {
                    None => (s, NativeDispatchView::Ignored),
                    Some(i) => (
                        NativeView { pending: s.pending.remove(i), ..s },
                        NativeDispatchView::Call {
                            token: s.pending[i].token,
                            outcome: CallOutcomeView::Response { kind, body: f.body },
                        },
                    ),
                }
            },
        },
    }
}

/// Lifts a native event.
pub fn lift_event_to_runtime_event(kind: MessageKind, event: Option<NativeEvent>) -> (r: Option<
    RuntimeEvent,
>)
    ensures
        ({
            let ev = match event {
                Some(e) => Some(e@),
                None => None,
            };
            match r {
                Some(e) => native_event(kind, ev) == Some(e@),
                None => native_event(kind, ev) is None,
            }
        }),
{
    match event {
        None => None,
        Some(e) => match (kind, e) {
            (
                MessageKind::FaultEvent,
                NativeEvent::Fault { fault_code, fault_detail, segment_id },
            ) => Some(
                RuntimeEvent::Fault(
                    FaultEvent { fault_code, fault_detail, segment_id, synthesized: false },
                ),
            ),
            (MessageKind::StatusHeartbeat, NativeEvent::Heartbeat { retired_counts }) => Some(
                RuntimeEvent::Heartbeat { retired_counts },
            ),
            (MessageKind::McuLog, NativeEvent::Log(l)) => Some(RuntimeEvent::McuLog(l)),
            _ => None,
        },
    }
}

impl KalicoNativeState {
    /// Nothing in flight, nothing identified.
    pub fn new(protocol: NativeProtocol) -> (s: Self)
        ensures
            s@ == fresh_native(protocol@),
    {
        KalicoNativeState {
            protocol,
            pending: Vec::new(),
            next_correlation_id: 1,
            identify_pending: None,
            reset_epoch: None,
            identified: false,
        }
    }

    /// A new correlation number. Zero is kept for events.
    pub fn allocate_correlation_id(&mut self) -> (cid: u32)
        ensures
            cid == old(self)@.next_correlation_id,
            final(self)@ == (NativeView { next_correlation_id: next_cid(cid), ..old(self)@ }),
    {
        let cid: u32 = self.next_correlation_id;
        self.next_correlation_id = if cid == u32::MAX {
            1
        } else {
            cid + 1
        };
        cid
    }

    /// The position of the call with a correlation number.
    fn position(&self, cid: u32) -> (r: Option<usize>)
        ensures
            match r {
                Some(i) => find_call(self@.pending, cid) == Some(i as int) && i
                    < self@.pending.len(),
                None => find_call(self@.pending, cid) is None,
            },
    {
        let mut i: usize = 0;
        while i < self.pending.len()
            invariant
                i <= self.pending@.len(),
                forall|j: int| 0 <= j < i ==> (#[trigger] self.pending@[j]).correlation_id != cid,
            decreases self.pending@.len() - i,
        {
            proof {
                lemma_find_call_at(self.pending@, cid, i as int);
            }
            if self.pending[i].correlation_id == cid {
                return Some(i);
            }
            i += 1;
        }
        proof {
            lemma_find_call_at(self.pending@, cid, i as int);
        }
        None
    }

    /// Adds a call in flight, in place of one with the same correlation
    /// number.
    pub fn add_call(&mut self, call: PendingKalicoCall)
        ensures
            final(self)@ == (NativeView {
                pending: without_call(old(self)@.pending, call.correlation_id).push(call),
                ..old(self)@
            }),
    {
        match self.position(call.correlation_id) {
            Some(i) => {
                self.pending.remove(i);
            },
            None => {},
        }
        self.pending.push(call);
    }

    /// Takes the call with a correlation number out.
    pub fn take_call(&mut self, cid: u32) -> (r: Option<PendingKalicoCall>)
        ensures
            match r {
                Some(c) => find_call(old(self)@.pending, cid) matches Some(i) && c
                    == old(self)@.pending[i] && final(self)@ == (NativeView {
                    pending: old(self)@.pending.remove(i),
                    ..old(self)@
                }),
                None => find_call(old(self)@.pending, cid) is None && final(self)@ == old(self)@,
            },
    {
        match self.position(cid) {
            Some(i) => Some(self.pending.remove(i)),
            None => None,
        }
    }

    /// Takes the calls out whose deadline has come.
    pub fn take_overdue(&mut self, now: u64) -> (r: Vec<PendingKalicoCall>)
        ensures
            r@ == overdue(old(self)@.pending, now),
            final(self)@ == (NativeView {
                pending: in_time(old(self)@.pending, now),
                ..old(self)@
            }),
    {
        let ghost all = self.pending@;
        let mut late: Vec<PendingKalicoCall> = Vec::new();
        let mut kept: Vec<PendingKalicoCall> = Vec::new();
        let mut i: usize = 0;
        while i < self.pending.len()
            invariant
                i <= all.len(),
                self.pending@ == all,
                self@ == old(self)@,
                late@ == overdue(all.take(i as int), now),
                kept@ == in_time(all.take(i as int), now),
            decreases all.len() - i,
        {
            proof {
                assert(all.take(i + 1).drop_last() =~= all.take(i as int));
                assert(all.take(i + 1).last() == all[i as int]);
            }
            let c: PendingKalicoCall = self.pending[i];
            if c.deadline <= now {
                late.push(c);
            } else {
                kept.push(c);
            }
            i += 1;
        }
        proof {
            assert(all.take(all.len() as int) =~= all);
        }
        self.pending = kept;
        late
    }

    /// Takes an identify response in.
    fn handle_identify_response(
        &mut self,
        payload_len: usize,
        fields: Option<IdentifyFields>,
    ) -> (r: KalicoDispatchResult)
        ensures
            ({
                let fv = match fields {
                    Some(f) => Some(f@),
                    None => None,
                };
                (final(self)@, r@) == identify_taken(old(self)@, payload_len, fv)
            }),
    {
        let complaint: Option<String> = check_identify(&self.protocol, payload_len, &fields);
        let token: Option<u64> = self.identify_pending;
        self.identify_pending = None;
        match complaint {
            Some(text) => KalicoDispatchResult::Identify {
                token,
                outcome: Err(TransportError::Parse(text)),
            },
            None => match fields {
                Some(f) => {
                    self.reset_epoch = Some(f.reset_epoch);
                    self.identified = true;
                    KalicoDispatchResult::Identify {
                        token,
                        outcome: Ok(
                            IdentifyOutcome {
                                reset_epoch: f.reset_epoch,
                                capabilities: f.capabilities,
                            },
                        ),
                    }
                },
                None => KalicoDispatchResult::Ignored,
            },
        }
    }
}

/// Takes a native frame in: identify responses go to the handshake, events are
/// lifted, and responses go to the call with their correlation number.
pub fn dispatch_kalico_frame(state: &mut KalicoNativeState, frame: NativeFrame) -> (r:
    KalicoDispatchResult)
    ensures
        (final(state)@, r@) == native_taken(old(state)@, frame@),
{
    match frame.header {
        None => KalicoDispatchResult::Ignored,
        Some(h) => match h.kind {
            None => KalicoDispatchResult::Ignored,
            Some(kind) => {
                if kind == MessageKind::IdentifyResponse {
                    return state.handle_identify_response(frame.payload_len, frame.identify);
                }
                if frame.channel == CHANNEL_EVENTS || kind.is_event() {
                    return match lift_event_to_runtime_event(kind, frame.event) {
                        Some(e) => KalicoDispatchResult::Event(e),
                        None => KalicoDispatchResult::Ignored,
                    };
                }
                if h.correlation_id == 0 {
                    return KalicoDispatchResult::Ignored;
                }
                match state.take_call(h.correlation_id) {
                    Some(c) => KalicoDispatchResult::Call {
                        token: c.token,
                        outcome: KalicoCallOutcome::Response { kind, body: frame.body },
                    },
                    None => KalicoDispatchResult::Ignored,
                }
            },
        },
    }
}

/// No correlation number that is given out is zero.
pub proof fn law_correlation_id_nonzero(cid: u32)
    ensures
        next_cid(cid) != 0,
{
}

/// A response is handed out at most once: the same frame again is ignored,
/// where no two calls share a correlation number.
pub proof fn law_response_once(s: NativeView, f: NativeFrameView)
    requires
        forall|i: int, j: int|
            0 <= i < j < s.pending.len() ==> s.pending[i].correlation_id
                != s.pending[j].correlation_id,
        native_taken(s, f).1 is Call,
    ensures
        native_taken(native_taken(s, f).0, f).1 is Ignored,
{
    let cid = f.header->0.correlation_id;
    lemma_find_call(s.pending, cid);
    let i = find_call(s.pending, cid)->0;
    let t = s.pending.remove(i);
    lemma_find_call_at(t, cid, t.len() as int);
}

proof fn lemma_find_call(s: Seq<PendingKalicoCall>, cid: u32)
    ensures
        match find_call(s, cid) {
            Some(i) => 0 <= i < s.len() && s[i].correlation_id == cid,
            None => true,
        },
    decreases s.len(),
{
    if s.len() > 0 && s[0].correlation_id != cid {
        lemma_find_call(s.skip(1), cid);
    }
}

} // verus!
