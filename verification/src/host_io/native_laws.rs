//! What native calls and the native handshake promise.

use crate::host_io::kalico_native::{
    find_call, fresh_native, identify_taken, in_time, native_taken, next_cid, overdue,
    without_call, CallOutcomeView, IdentifyFieldsView, MessageKind, NativeDispatchView,
    NativeEventView, NativeFrameView, NativeHeader, NativeProtocolView, NativeView,
    PendingKalicoCall, CHANNEL_EVENTS,
};
use crate::host_io::reactor_model::{call_started, ReactorView};
use crate::host_io::reactor_types::{GoalView, ReactorState};
use crate::host_io::runtime_events::{FaultEvent, RuntimeEventView};
use vstd::prelude::*;

verus! {

pub(crate) proof fn lemma_find_call(s: Seq<PendingKalicoCall>, cid: u32)
    ensures
        match find_call(s, cid) {
            Some(i) => 0 <= i < s.len() && s[i].correlation_id == cid && forall|j: int|
                0 <= j < i ==> (#[trigger] s[j]).correlation_id != cid,
            None => forall|j: int| 0 <= j < s.len() ==> (#[trigger] s[j]).correlation_id != cid,
        },
    decreases s.len(),
{
    if s.len() > 0 && s[0].correlation_id != cid {
        let t = s.skip(1);
        lemma_find_call(t, cid);
        assert forall|j: int| 0 < j < s.len() implies #[trigger] s[j] == t[j - 1] by {}
    }
}

proof fn lemma_found_last(s: Seq<PendingKalicoCall>, c: PendingKalicoCall)
    requires
        find_call(s, c.correlation_id) is None,
    ensures
        find_call(s.push(c), c.correlation_id) == Some(s.len() as int),
    decreases s.len(),
{
    if s.len() > 0 {
        lemma_find_call(s, c.correlation_id);
        assert(s[0].correlation_id != c.correlation_id);
        assert(s.push(c).skip(1) =~= s.skip(1).push(c));
        lemma_found_last(s.skip(1), c);
    } else {
        assert(s.push(c)[0] == c);
    }
}

/// Whether no two calls wait under the same number.
pub open spec fn calls_apart(s: Seq<PendingKalicoCall>) -> bool {
    forall|i: int, j: int|
        0 <= i < j < s.len() ==> (#[trigger] s[i]).correlation_id != (#[trigger] s[j]).correlation_id
}

/// A call that is sent is answered by the message that comes back under its
/// number: its caller gets that message's kind and body, and the calls that
/// waited before wait on.
pub proof fn law_call_gets_its_answer(
    v: ReactorView,
    channel: u8,
    kind: MessageKind,
    body: Seq<u8>,
    token: u64,
    deadline: u64,
    f: NativeFrameView,
    answer: MessageKind,
)
    requires
        v.state == ReactorState::Active,
        v.native.identified,
        v.native.next_correlation_id != 0,
        calls_apart(v.native.pending),
        f.header == Some(
            NativeHeader {
                kind: Some(answer),
                correlation_id: v.native.next_correlation_id,
            },
        ),
        answer != MessageKind::IdentifyResponse,
        !crate::host_io::kalico_native::is_event_kind(answer),
        f.channel != CHANNEL_EVENTS,
    ensures
        ({
            let w = call_started(v, channel, kind, body, token, deadline);
            let (n, got) = native_taken(w.native, f);
            &&& w.writing matches Some(GoalView::Call {
                correlation_id,
                channel: c,
                kind: k,
                body: b,
            }) && correlation_id == v.native.next_correlation_id && c == channel && k == kind && b
                == body
            &&& got == (NativeDispatchView::Call {
                token,
                outcome: CallOutcomeView::Response { kind: answer, body: f.body },
            })
            &&& n.pending == without_call(v.native.pending, v.native.next_correlation_id)
            &&& native_taken(n, f).1 is Ignored
        }),
{
    let cid = v.native.next_correlation_id;
    let s = without_call(v.native.pending, cid);
    lemma_find_call(v.native.pending, cid);
    lemma_find_call(s, cid);
    assert(find_call(s, cid) is None) by {
        match find_call(v.native.pending, cid) {
            Some(i) => {
                match find_call(s, cid) {
                    Some(j) => {
                        let k = if j < i {
                            j
                        } else {
                            j + 1
                        };
                        assert(v.native.pending[k] == s[j]);
                    },
                    None => {},
                }
            },
            None => {},
        }
    }
    let c = PendingKalicoCall { correlation_id: cid, token, deadline };
    lemma_found_last(s, c);
    assert(s.push(c).remove(s.len() as int) =~= s);
}

/// Before the handshake, and once the connection is closed, a native call is
/// not sent; its caller is told so at once.
pub proof fn law_call_is_refused(
    v: ReactorView,
    channel: u8,
    kind: MessageKind,
    body: Seq<u8>,
    token: u64,
    deadline: u64,
)
    requires
        v.writing is None,
    ensures
        (v.state == ReactorState::Closed || !v.native.identified) <==> call_started(
            v,
            channel,
            kind,
            body,
            token,
            deadline,
        ).writing is None,
        v.state == ReactorState::Closed || !v.native.identified ==> call_started(
            v,
            channel,
            kind,
            body,
            token,
            deadline,
        ).outbox.len() == v.outbox.len() + 1,
{
}

/// The transport is identified by a response of the right length with the
/// host's own protocol version and schema, and by no other; then it has the
/// epoch that the response names.
pub proof fn law_identified_by_own_protocol(
    s: NativeView,
    payload_len: usize,
    f: IdentifyFieldsView,
)
    requires
        !s.identified,
    ensures
        ({
            let w = identify_taken(s, payload_len, Some(f)).0;
            &&& w.identified <==> payload_len == s.protocol.identify_response_len && f.proto_version
                == s.protocol.proto_version && f.schema_hash == s.protocol.schema_hash
            &&& w.identified ==> w.reset_epoch == Some(f.reset_epoch)
            &&& w.identify_pending is None
            &&& w.pending == s.pending
        }),
{
}

/// Each call is given up from its deadline on and not before: of the calls that
/// wait, just those whose time has come are overdue.
pub proof fn law_deadlines_part_calls(s: Seq<PendingKalicoCall>, now: u64, c: PendingKalicoCall)
    ensures
        overdue(s, now).contains(c) <==> s.contains(c) && c.deadline <= now,
        in_time(s, now).contains(c) <==> s.contains(c) && now < c.deadline,
        overdue(s, now).len() + in_time(s, now).len() == s.len(),
    decreases s.len(),
{
    if s.len() > 0 {
        let t = s.drop_last();
        let x = s.last();
        law_deadlines_part_calls(t, now, c);
        assert(s =~= t.push(x));
        lemma_push_contains(t, x, c);
        lemma_push_contains(overdue(t, now), x, c);
        lemma_push_contains(in_time(t, now), x, c);
    }
}

proof fn lemma_push_contains(s: Seq<PendingKalicoCall>, x: PendingKalicoCall, c: PendingKalicoCall)
    ensures
        s.push(x).contains(c) <==> s.contains(c) || c == x,
{
    if s.contains(c) {
        let i = s.index_of(c);
        assert(s.push(x)[i] == c);
    }
    if c == x {
        assert(s.push(x)[s.len() as int] == c);
    }
    if s.push(x).contains(c) {
        let i = s.push(x).index_of(c);
        if i < s.len() {
            assert(s[i] == c);
        }
    }
}

/// Correlation numbers go round through all numbers but zero, which is kept
/// for events.
pub proof fn law_correlation_goes_round(cid: u32)
    requires
        cid != 0,
    ensures
        next_cid(cid) != 0,
        next_cid(cid) != cid,
        cid < u32::MAX ==> next_cid(cid) == cid + 1,
        next_cid(u32::MAX) == 1,
{
}

/// A response to the handshake goes to whoever asked for it, with what the
/// firmware says of itself, and is not waited for any more.
pub proof fn law_identify_is_answered(s: NativeView, token: u64, f: NativeFrameView, h: NativeHeader)
    requires
        s.identify_pending == Some(token),
        f.header == Some(h),
        h.kind == Some(MessageKind::IdentifyResponse),
    ensures
        ({
            let (w, got) = native_taken(s, f);
            &&& w.identify_pending is None
            &&& got matches NativeDispatchView::Identify { token: t, outcome } && t == Some(token)
                && (outcome is Ok <==> w.identified && f.identify is Some && f.payload_len
                == s.protocol.identify_response_len && f.identify->0.proto_version
                == s.protocol.proto_version && f.identify->0.schema_hash == s.protocol.schema_hash)
                && (outcome matches Ok(o) ==> f.identify matches Some(i) && o.reset_epoch
                == i.reset_epoch && o.capabilities == i.capabilities)
        }),
{
}

/// A message that answers nobody is dropped and changes nothing: one without a
/// known kind, one under the number zero, and one under a number that no call
/// waits under.
pub proof fn law_stray_messages_are_dropped(s: NativeView, f: NativeFrameView)
    requires
        f.header matches Some(h) ==> (h.kind matches Some(k) ==> k != MessageKind::IdentifyResponse
            && !crate::host_io::kalico_native::is_event_kind(k) && f.channel != 1 && (
        h.correlation_id == 0 || forall|i: int|
            0 <= i < s.pending.len() ==> (#[trigger] s.pending[i]).correlation_id
                != h.correlation_id)),
    ensures
        native_taken(s, f) == (s, NativeDispatchView::Ignored),
{
    if f.header is Some {
        lemma_find_call(s.pending, f.header->0.correlation_id);
    }
}

/// The firmware's events are told as what they are, whatever channel and number
/// they come under, and answer no call; a fault of theirs is a real one. Nothing
/// else on the channel for events is told or answers a call.
pub proof fn law_native_events_are_told(
    s: NativeView,
    f: NativeFrameView,
    h: NativeHeader,
    code: u16,
    detail: u32,
    segment: u32,
    counts: Seq<u32>,
)
    requires
        f.header == Some(h),
    ensures
        h.kind == Some(MessageKind::FaultEvent) && f.event == Some(
            NativeEventView::Fault { fault_code: code, fault_detail: detail, segment_id: segment },
        ) ==> native_taken(s, f) == (
            s,
            NativeDispatchView::Event(
                RuntimeEventView::Fault(
                    FaultEvent {
                        fault_code: code,
                        fault_detail: detail,
                        segment_id: segment,
                        synthesized: false,
                    },
                ),
            ),
        ),
        h.kind == Some(MessageKind::StatusHeartbeat) && f.event == Some(
            NativeEventView::Heartbeat { retired_counts: counts },
        ) ==> native_taken(s, f) == (
            s,
            NativeDispatchView::Event(RuntimeEventView::Heartbeat { retired_counts: counts }),
        ),
        f.event is None && h.kind is Some && h.kind != Some(MessageKind::IdentifyResponse) && (
        f.channel == 1 || h.kind == Some(MessageKind::FaultEvent) || h.kind == Some(
            MessageKind::StatusHeartbeat,
        ) || h.kind == Some(MessageKind::McuLog)) ==> native_taken(s, f) == (
            s,
            NativeDispatchView::Ignored,
        ),
{
}

/// A fresh transport is not identified, waits for nothing, and gives out one as
/// its first number.
pub proof fn law_fresh_transport(p: NativeProtocolView)
    ensures
        !fresh_native(p).identified,
        fresh_native(p).pending.len() == 0,
        fresh_native(p).identify_pending is None,
        fresh_native(p).reset_epoch is None,
        fresh_native(p).next_correlation_id == 1,
        fresh_native(p).protocol == p,
{
}

} // verus!
