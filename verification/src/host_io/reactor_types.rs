//! What goes into the reactor and what comes out of it.

use crate::host_io::interceptor::InterceptorId;
use crate::host_io::kalico_native::{
    identify_result, CallOutcomeView, IdentifyOutcome, KalicoCallOutcome, MessageKind,
    NativeFrame, NativeFrameView,
};
use crate::host_io::runtime_events::{FaultEvent, RuntimeEvent, RuntimeEventView};
use crate::passthrough_queue::entry::{EntryView, NotifyId, PassthroughEntry};
use crate::passthrough_queue::mcu_state::CommandQueueId;
use crate::passthrough_queue::notify::{NotifyResponse, NotifyResponseView};
use crate::passthrough_queue::router::{McuHandle, PassthroughRouter, RouterView};
use crate::transport::{MessageParams, ParamsView, TransportError, TransportErrorView};
use vstd::prelude::*;

verus! {

/// The channels that events can be subscribed to.
#[derive(Debug, Clone, Copy, PartialEq, Eq, Structural)]
pub enum EventChannel {
    Fault,
    Trace,
    Runtime,
    Host,
}

/// A request to the reactor. Callers are known by the numbers they give.
#[allow(inconsistent_fields)]
#[derive(Debug)]
pub enum ReactorCommand {
    /// Send a textual command and wait for a response.
    Submit { call_id: u64, cmd: String, expected_response_name: String, deadline: u64 },
    /// Send an encoded command and wait for a response.
    SubmitTyped { call_id: u64, payload: Vec<u8>, expected_response_name: String, deadline: u64 },
    /// The caller has stopped waiting.
    Abandon(u64),
    Shutdown,
    /// The connection is about to close, as wanted.
    MarkExpectedDisconnect,
    AttachHeartbeatCallback,
    SetMcuLogHook,
    Subscribe { channel: EventChannel, token: u64 },
    InstallPassthroughRouter(PassthroughRouter),
    PassthroughSend { mcu: McuHandle, queue_id: CommandQueueId, entry: PassthroughEntry },
    /// Send a textual command that has no response.
    FireAndForget { cmd: String },
    /// Send an encoded command that has no response.
    FireAndForgetTyped { payload: Vec<u8> },
    KalicoIdentify { token: u64 },
    KalicoCall { channel: u8, kind: MessageKind, body: Vec<u8>, token: u64, deadline: u64 },
    Noop,
    RegisterInterceptor { msg_name: String, oid: Option<u32>, token: u64 },
    UnregisterInterceptor { id: InterceptorId },
}

/// Model of [`ReactorCommand`].
#[allow(inconsistent_fields)]
pub enum CommandView {
    Submit {
        call_id: u64,
        cmd: Seq<char>,
        expected_response_name: Seq<char>,
        deadline: u64,
    },
    SubmitTyped {
        call_id: u64,
        payload: Seq<u8>,
        expected_response_name: Seq<char>,
        deadline: u64,
    },
    Abandon(u64),
    Shutdown,
    MarkExpectedDisconnect,
    AttachHeartbeatCallback,
    SetMcuLogHook,
    Subscribe { channel: EventChannel, token: u64 },
    InstallPassthroughRouter(RouterView),
    PassthroughSend { mcu: McuHandle, queue_id: CommandQueueId, entry: EntryView },
    FireAndForget { cmd: Seq<char> },
    FireAndForgetTyped { payload: Seq<u8> },
    KalicoIdentify { token: u64 },
    KalicoCall { channel: u8, kind: MessageKind, body: Seq<u8>, token: u64, deadline: u64 },
    Noop,
    RegisterInterceptor { msg_name: Seq<char>, oid: Option<u32>, token: u64 },
    UnregisterInterceptor { id: InterceptorId },
}

impl View for ReactorCommand {
    type V = CommandView;

    open spec fn view(&self) -> CommandView {
        match self {
            ReactorCommand::Submit { call_id, cmd, expected_response_name, deadline } => {
                CommandView::Submit {
                    call_id: *call_id,
                    cmd: cmd@,
                    expected_response_name: expected_response_name@,
                    deadline: *deadline,
                }
            },
            ReactorCommand::SubmitTyped { call_id, payload, expected_response_name, deadline } => {
                CommandView::SubmitTyped {
                    call_id: *call_id,
                    payload: payload@,
                    expected_response_name: expected_response_name@,
                    deadline: *deadline,
                }
            },
            ReactorCommand::Abandon(id) => CommandView::Abandon(*id),
            ReactorCommand::Shutdown => CommandView::Shutdown,
            ReactorCommand::MarkExpectedDisconnect => CommandView::MarkExpectedDisconnect,
            ReactorCommand::AttachHeartbeatCallback => CommandView::AttachHeartbeatCallback,
            ReactorCommand::SetMcuLogHook => CommandView::SetMcuLogHook,
            ReactorCommand::Subscribe { channel, token } => CommandView::Subscribe {
                channel: *channel,
                token: *token,
            },
            ReactorCommand::InstallPassthroughRouter(r) => {
                CommandView::InstallPassthroughRouter(r@)
            },
            ReactorCommand::PassthroughSend { mcu, queue_id, entry } => {
                CommandView::PassthroughSend { mcu: *mcu, queue_id: *queue_id, entry: entry@ }
            },
            ReactorCommand::FireAndForget { cmd } => CommandView::FireAndForget { cmd: cmd@ },
            ReactorCommand::FireAndForgetTyped { payload } => CommandView::FireAndForgetTyped {
                payload: payload@,
            },
            ReactorCommand::KalicoIdentify { token } => CommandView::KalicoIdentify {
                token: *token,
            },
            ReactorCommand::KalicoCall { channel, kind, body, token, deadline } => {
                CommandView::KalicoCall {
                    channel: *channel,
                    kind: *kind,
                    body: body@,
                    token: *token,
                    deadline: *deadline,
                }
            },
            ReactorCommand::Noop => CommandView::Noop,
            ReactorCommand::RegisterInterceptor { msg_name, oid, token } => {
                CommandView::RegisterInterceptor { msg_name: msg_name@, oid: *oid, token: *token }
            },
            ReactorCommand::UnregisterInterceptor { id } => CommandView::UnregisterInterceptor {
                id: *id,
            },
        }
    }
}

/// What became of a response that no call waits for.
#[derive(Debug)]
pub enum Fate {
    /// It goes to the general event channel.
    Forward,
    /// It answers a passthrough message: the response goes to the callback, if
    /// one still waits.
    Notified { mcu: McuHandle, notify_id: NotifyId, response: Option<NotifyResponse> },
}

/// Model of [`Fate`].
#[verifier::ext_equal]
pub enum FateView {
    Forward,
    Notified { mcu: McuHandle, notify_id: NotifyId, response: Option<NotifyResponseView> },
}

impl View for Fate {
    type V = FateView;

    open spec fn view(&self) -> FateView {
        match self {
            Fate::Forward => FateView::Forward,
            Fate::Notified { mcu, notify_id, response } => FateView::Notified {
                mcu: *mcu,
                notify_id: *notify_id,
                response: match response {
                    Some(r) => Some(r@),
                    None => None,
                },
            },
        }
    }
}

/// What the reactor asks its owner to do, in order.
#[allow(inconsistent_fields)]
#[derive(Debug)]
pub enum Effect {
    /// Tell a caller what its call gave.
    Complete { call_id: u64, result: Result<MessageParams, TransportError> },
    /// Tell a caller what its native call gave.
    CompleteNative { token: u64, result: Result<KalicoCallOutcome, TransportError> },
    /// Tell a caller what the identify handshake gave.
    CompleteIdentify { token: u64, result: Result<IdentifyOutcome, TransportError> },
    /// Call the interceptors of a response that no call waits for, and deal
    /// with the response.
    Unsolicited {
        interceptors: Vec<InterceptorId>,
        name: String,
        params: MessageParams,
        fate: Fate,
    },
    /// Dispatch an event.
    Event(RuntimeEvent),
    /// Latch a fault of the host.
    HostFault(FaultEvent),
    /// Attach the heartbeat callback.
    AttachHeartbeat,
    /// Attach the hook for log records.
    AttachLogHook,
    /// Attach a subscriber and tell the caller whether that was possible.
    Subscribe { channel: EventChannel, token: u64 },
    /// Tell a caller the number of its interceptor.
    InterceptorRegistered { token: u64, id: InterceptorId },
}

/// Model of [`Effect`].
#[verifier::ext_equal]
#[allow(inconsistent_fields)]
pub enum EffectView {
    Complete { call_id: u64, result: Result<ParamsView, TransportErrorView> },
    CompleteNative { token: u64, result: Result<CallOutcomeView, TransportErrorView> },
    CompleteIdentify { token: u64, result: Result<IdentifyOutcome, TransportErrorView> },
    Unsolicited {
        interceptors: Seq<InterceptorId>,
        name: Seq<char>,
        params: ParamsView,
        fate: FateView,
    },
    Event(RuntimeEventView),
    HostFault(FaultEvent),
    AttachHeartbeat,
    AttachLogHook,
    Subscribe { channel: EventChannel, token: u64 },
    InterceptorRegistered { token: u64, id: InterceptorId },
}

/// The result of a call, as a model.
pub open spec fn call_result(r: Result<MessageParams, TransportError>) -> Result<
    ParamsView,
    TransportErrorView,
> {
    match r {
        Ok(p) => Ok(p@),
        Err(e) => Err(e@),
    }
}

/// The result of a native call, as a model.
pub open spec fn native_result(r: Result<KalicoCallOutcome, TransportError>) -> Result<
    CallOutcomeView,
    TransportErrorView,
> {
    match r {
        Ok(o) => Ok(o@),
        Err(e) => Err(e@),
    }
}

impl View for Effect {
    type V = EffectView;

    open spec fn view(&self) -> EffectView {
        match self {
            Effect::Complete { call_id, result } => EffectView::Complete {
                call_id: *call_id,
                result: call_result(*result),
            },
            Effect::CompleteNative { token, result } => EffectView::CompleteNative {
                token: *token,
                result: native_result(*result),
            },
            Effect::CompleteIdentify { token, result } => EffectView::CompleteIdentify {
                token: *token,
                result: identify_result(*result),
            },
            Effect::Unsolicited { interceptors, name, params, fate } => EffectView::Unsolicited {
                interceptors: interceptors@,
                name: name@,
                params: params@,
                fate: fate@,
            },
            Effect::Event(e) => EffectView::Event(e@),
            Effect::HostFault(f) => EffectView::HostFault(*f),
            Effect::AttachHeartbeat => EffectView::AttachHeartbeat,
            Effect::AttachLogHook => EffectView::AttachLogHook,
            Effect::Subscribe { channel, token } => EffectView::Subscribe {
                channel: *channel,
                token: *token,
            },
            Effect::InterceptorRegistered { token, id } => EffectView::InterceptorRegistered {
                token: *token,
                id: *id,
            },
        }
    }
}

/// Effects, as models.
pub open spec fn effect_views(v: Seq<Effect>) -> Seq<EffectView> {
    Seq::new(v.len(), |i: int| v[i]@)
}

/// A received frame.
#[derive(Debug)]
pub enum Frame {
    Klipper(Vec<u8>),
    Native(NativeFrame),
}

/// Model of [`Frame`].
#[verifier::ext_equal]
pub enum FrameView {
    Klipper(Seq<u8>),
    Native(NativeFrameView),
}

impl View for Frame {
    type V = FrameView;

    open spec fn view(&self) -> FrameView {
        match self {
            Frame::Klipper(b) => FrameView::Klipper(b@),
            Frame::Native(f) => FrameView::Native(f@),
        }
    }
}

/// Frames, as models.
pub open spec fn frame_views(v: Seq<Frame>) -> Seq<FrameView> {
    Seq::new(v.len(), |i: int| v[i]@)
}

/// What reading from the port gave.
#[derive(Debug)]
pub enum PollOutcome {
    /// Bytes came: whole frames, and so many errors in the stream.
    Frames { frames: Vec<Frame>, errors: usize },
    Timeout,
    /// The read returned without bytes.
    PhantomZero,
    /// The read failed.
    Failed,
}

/// Model of [`PollOutcome`].
pub enum PollView {
    Frames { frames: Seq<FrameView>, errors: usize },
    Timeout,
    PhantomZero,
    Failed,
}

impl View for PollOutcome {
    type V = PollView;

    open spec fn view(&self) -> PollView {
        match self {
            PollOutcome::Frames { frames, errors } => PollView::Frames {
                frames: frame_views(frames@),
                errors: *errors,
            },
            PollOutcome::Timeout => PollView::Timeout,
            PollOutcome::PhantomZero => PollView::PhantomZero,
            PollOutcome::Failed => PollView::Failed,
        }
    }
}

/// What the owner reports to the reactor.
#[derive(Debug)]
pub enum TickEvent {
    /// Nothing: go on.
    Go,
    /// A request was received.
    Command(ReactorCommand),
    /// No request waits.
    NoCommand,
    /// Nobody is left to send requests.
    CommandsClosed,
    /// The port was read.
    Polled(PollOutcome),
    /// The bytes were written, or why not.
    Written(Result<(), String>),
}

/// Model of [`TickEvent`].
pub enum TickEventView {
    Go,
    Command(CommandView),
    NoCommand,
    CommandsClosed,
    Polled(PollView),
    Written(Result<(), Seq<char>>),
}

impl View for TickEvent {
    type V = TickEventView;

    open spec fn view(&self) -> TickEventView {
        match self {
            TickEvent::Go => TickEventView::Go,
            TickEvent::Command(c) => TickEventView::Command(c@),
            TickEvent::NoCommand => TickEventView::NoCommand,
            TickEvent::CommandsClosed => TickEventView::CommandsClosed,
            TickEvent::Polled(p) => TickEventView::Polled(p@),
            TickEvent::Written(r) => TickEventView::Written(
                match r {
                    Ok(_) => Ok(()),
                    Err(s) => Err(s@),
                },
            ),
        }
    }
}

/// How a tick ends.
#[derive(Debug, Clone, Copy, PartialEq, Eq, Structural)]
pub enum TickOutcome {
    Continue,
    Closed,
}

/// Bytes to write: of a klipper frame, or the parts of a native one.
#[derive(Debug)]
pub enum Outgoing {
    Bytes(Vec<u8>),
    NativeIdentify { correlation_id: u32 },
    NativeCall { channel: u8, kind: MessageKind, correlation_id: u32, body: Vec<u8> },
}

/// Model of [`Outgoing`].
#[verifier::ext_equal]
#[allow(inconsistent_fields)]
pub enum OutgoingView {
    Bytes(Seq<u8>),
    NativeIdentify { correlation_id: u32 },
    NativeCall { channel: u8, kind: MessageKind, correlation_id: u32, body: Seq<u8> },
}

impl View for Outgoing {
    type V = OutgoingView;

    open spec fn view(&self) -> OutgoingView {
        match self {
            Outgoing::Bytes(b) => OutgoingView::Bytes(b@),
            Outgoing::NativeIdentify { correlation_id } => OutgoingView::NativeIdentify {
                correlation_id: *correlation_id,
            },
            Outgoing::NativeCall { channel, kind, correlation_id, body } => {
                OutgoingView::NativeCall {
                    channel: *channel,
                    kind: *kind,
                    correlation_id: *correlation_id,
                    body: body@,
                }
            },
        }
    }
}

impl Outgoing {
    /// The same once more.
    pub fn copied(&self) -> (r: Self)
        ensures
            r@ == self@,
    {
        match self {
            Outgoing::Bytes(b) => Outgoing::Bytes(vstd::slice::slice_to_vec(b.as_slice())),
            Outgoing::NativeIdentify { correlation_id } => Outgoing::NativeIdentify {
                correlation_id: *correlation_id,
            },
            Outgoing::NativeCall { channel, kind, correlation_id, body } => Outgoing::NativeCall {
                channel: *channel,
                kind: *kind,
                correlation_id: *correlation_id,
                body: vstd::slice::slice_to_vec(body.as_slice()),
            },
        }
    }
}

/// What the owner is to do next.
#[derive(Debug)]
pub enum TickAction {
    /// Look for a request.
    Receive,
    /// Read from the port.
    Poll,
    /// Write to the port.
    Write(Outgoing),
    /// Nothing: report [`TickEvent::Go`].
    Again,
    /// The tick is over.
    Done(TickOutcome),
}

/// Model of [`TickAction`].
#[verifier::ext_equal]
pub enum TickActionView {
    Receive,
    Poll,
    Write(OutgoingView),
    Again,
    Done(TickOutcome),
}

impl View for TickAction {
    type V = TickActionView;

    open spec fn view(&self) -> TickActionView {
        match self {
            TickAction::Receive => TickActionView::Receive,
            TickAction::Poll => TickActionView::Poll,
            TickAction::Write(o) => TickActionView::Write(o@),
            TickAction::Again => TickActionView::Again,
            TickAction::Done(o) => TickActionView::Done(*o),
        }
    }
}

/// Whether the connection is in use.
#[derive(Debug, Clone, Copy, PartialEq, Eq, Structural)]
pub enum ReactorState {
    Active,
    Closed,
}

/// Why frames are sent again.
#[derive(Debug, Clone, Copy, PartialEq, Eq, Structural)]
pub enum RetransmitTrigger {
    NakDriven,
    TimeoutDriven,
}

/// The kinds of messages that wait for room in the window.
#[derive(Debug, Clone, Copy, PartialEq, Eq, Structural)]
pub enum PendingOutboundKind {
    Submission,
    FireAndForget,
}

/// A command that waits for room in the window.
#[derive(Debug)]
pub struct PendingSubmission {
    pub call_id: u64,
    pub payload: Vec<u8>,
    pub expected_response_name: String,
    pub deadline: u64,
}

/// Model of [`PendingSubmission`].
#[verifier::ext_equal]
pub struct SubmissionView {
    pub call_id: u64,
    pub payload: Seq<u8>,
    pub expected_response_name: Seq<char>,
    pub deadline: u64,
}

impl View for PendingSubmission {
    type V = SubmissionView;

    open spec fn view(&self) -> SubmissionView {
        SubmissionView {
            call_id: self.call_id,
            payload: self.payload@,
            expected_response_name: self.expected_response_name@,
            deadline: self.deadline,
        }
    }
}

/// Waiting commands, as models.
pub open spec fn submission_views(v: Seq<PendingSubmission>) -> Seq<SubmissionView> {
    Seq::new(v.len(), |i: int| v[i]@)
}

/// What a write is for.
#[derive(Debug)]
pub enum WriteGoal {
    Submission {
        call_id: u64,
        seq: u64,
        expected_response_name: String,
        deadline: u64,
        frame: Vec<u8>,
    },
    FireAndForget { seq: u64, frame: Vec<u8> },
    Passthrough { seq: u64, frame: Vec<u8>, mcu: McuHandle, notify_id: NotifyId },
    Retransmit { trigger: RetransmitTrigger, frame: Vec<u8> },
    Identify { correlation_id: u32 },
    Call { correlation_id: u32, channel: u8, kind: MessageKind, body: Vec<u8> },
}

/// Model of [`WriteGoal`].
#[verifier::ext_equal]
#[allow(inconsistent_fields)]
pub enum GoalView {
    Submission {
        call_id: u64,
        seq: u64,
        expected_response_name: Seq<char>,
        deadline: u64,
        frame: Seq<u8>,
    },
    FireAndForget { seq: u64, frame: Seq<u8> },
    Passthrough { seq: u64, frame: Seq<u8>, mcu: McuHandle, notify_id: NotifyId },
    Retransmit { trigger: RetransmitTrigger, frame: Seq<u8> },
    Identify { correlation_id: u32 },
    Call { correlation_id: u32, channel: u8, kind: MessageKind, body: Seq<u8> },
}

impl View for WriteGoal {
    type V = GoalView;

    open spec fn view(&self) -> GoalView {
        match self {
            WriteGoal::Submission { call_id, seq, expected_response_name, deadline, frame } => {
                GoalView::Submission {
                    call_id: *call_id,
                    seq: *seq,
                    expected_response_name: expected_response_name@,
                    deadline: *deadline,
                    frame: frame@,
                }
            },
            WriteGoal::FireAndForget { seq, frame } => GoalView::FireAndForget {
                seq: *seq,
                frame: frame@,
            },
            WriteGoal::Passthrough { seq, frame, mcu, notify_id } => GoalView::Passthrough {
                seq: *seq,
                frame: frame@,
                mcu: *mcu,
                notify_id: *notify_id,
            },
            WriteGoal::Retransmit { trigger, frame } => GoalView::Retransmit {
                trigger: *trigger,
                frame: frame@,
            },
            WriteGoal::Identify { correlation_id } => GoalView::Identify {
                correlation_id: *correlation_id,
            },
            WriteGoal::Call { correlation_id, channel, kind, body } => GoalView::Call {
                correlation_id: *correlation_id,
                channel: *channel,
                kind: *kind,
                body: body@,
            },
        }
    }
}

/// How far a tick has come.
#[derive(Debug, Clone, Copy, PartialEq, Eq, Structural)]
pub enum Phase {
    /// Requests are received; so many were.
    Commands(u8),
    /// The port is read.
    Polling,
    /// The received frames are handled.
    Frames,
    /// Messages that wait for room are sent.
    Draining,
    /// The passthrough queues are brought up to date.
    Promoting,
    /// Passthrough messages are sent.
    Passthrough,
    /// The retransmission timeout is looked at.
    Rto,
    /// What is overdue is given up.
    Finishing,
    /// The tick is over.
    Done(TickOutcome),
}

/// Where a passthrough response is to go, by the sequence of its request.
#[derive(Debug, Clone, Copy, PartialEq, Eq, Structural)]
pub struct NotifyEntry {
    pub seq: u64,
    pub mcu: McuHandle,
    pub notify_id: NotifyId,
}

/// The entries without the one of a sequence.
pub open spec fn without_seq(s: Seq<NotifyEntry>, seq: u64) -> Seq<NotifyEntry>
    decreases s.len(),
{
    if s.len() == 0 {
        Seq::empty()
    } else if s.last().seq == seq {
        without_seq(s.drop_last(), seq)
    } else {
        without_seq(s.drop_last(), seq).push(s.last())
    }
}

/// The entry with the lowest sequence.
pub open spec fn lowest(s: Seq<NotifyEntry>) -> int
    decreases s.len(),
{
    if s.len() <= 1 {
        0
    } else {
        let i = lowest(s.drop_last());
        if s[i].seq <= s.last().seq {
            i
        } else {
            s.len() - 1
        }
    }
}

/// The lowest entry is there, and none is lower.
pub proof fn lemma_lowest(s: Seq<NotifyEntry>)
    requires
        s.len() > 0,
    ensures
        0 <= lowest(s) < s.len(),
        forall|j: int| 0 <= j < s.len() ==> s[lowest(s)].seq <= (#[trigger] s[j]).seq,
    decreases s.len(),
{
    if s.len() > 1 {
        let t = s.drop_last();
        lemma_lowest(t);
        assert forall|j: int| 0 <= j < t.len() implies #[trigger] s[j] == t[j] by {}
        assert(s.last() == s[s.len() - 1]);
    }
}

/// Where passthrough responses are to go.
#[derive(Debug)]
pub struct NotifyMap {
    entries: Vec<NotifyEntry>,
}

impl View for NotifyMap {
    type V = Seq<NotifyEntry>;

    closed spec fn view(&self) -> Seq<NotifyEntry> {
        self.entries@
    }
}

impl NotifyMap {
    /// No entries.
    pub fn new() -> (m: Self)
        ensures
            m@ == Seq::<NotifyEntry>::empty(),
    {
        NotifyMap { entries: Vec::new() }
    }

    /// How many responses are to come.
    pub fn len(&self) -> (n: usize)
        ensures
            n == self@.len(),
    {
        self.entries.len()
    }

    /// One of the responses that are to come.
    pub fn entry(&self, i: usize) -> (r: Option<NotifyEntry>)
        ensures
            r == if i < self@.len() {
                Some(self@[i as int])
            } else {
                None
            },
    {
        if i < self.entries.len() {
            Some(self.entries[i])
        } else {
            None
        }
    }

    /// Whether the response to a sequence is to come.
    pub fn contains(&self, seq: u64) -> (r: bool)
        ensures
            r == (exists|i: int| 0 <= i < self@.len() && (#[trigger] self@[i]).seq == seq),
    {
        let mut i: usize = 0;
        while i < self.entries.len()
            invariant
                i <= self.entries@.len(),
                forall|j: int| 0 <= j < i ==> (#[trigger] self@[j]).seq != seq,
            decreases self.entries@.len() - i,
        {
            if self.entries[i].seq == seq {
                assert(self@[i as int].seq == seq);
                return true;
            }
            i += 1;
        }
        false
    }

    /// Adds an entry in place of one with the same sequence.
    pub fn insert(&mut self, e: NotifyEntry)
        ensures
            final(self)@ == without_seq(old(self)@, e.seq).push(e),
    {
        let ghost all = self.entries@;
        let mut kept: Vec<NotifyEntry> = Vec::new();
        let mut i: usize = 0;
        while i < self.entries.len()
            invariant
                i <= all.len(),
                self.entries@ == all,
                kept@ == without_seq(all.take(i as int), e.seq),
            decreases all.len() - i,
        {
            proof {
                assert(all.take(i + 1).drop_last() =~= all.take(i as int));
                assert(all.take(i + 1).last() == all[i as int]);
            }
            if self.entries[i].seq != e.seq {
                kept.push(self.entries[i]);
            }
            i += 1;
        }
        proof {
            assert(all.take(all.len() as int) =~= all);
        }
        kept.push(e);
        self.entries = kept;
    }

    /// Takes the entry with the lowest sequence out.
    pub fn take_lowest(&mut self) -> (r: Option<NotifyEntry>)
        ensures
            match r {
                Some(e) => old(self)@.len() > 0 && e == old(self)@[lowest(old(self)@)]
                    && final(self)@ == old(self)@.remove(lowest(old(self)@)),
                None => old(self)@.len() == 0 && final(self)@ == old(self)@,
            },
    {
        if self.entries.len() == 0 {
            return None;
        }
        let ghost all = self.entries@;
        let mut best: usize = 0;
        let mut i: usize = 1;
        proof {
            assert(lowest(all.take(1)) == 0);
        }
        while i < self.entries.len()
            invariant
                1 <= i <= all.len(),
                self.entries@ == all,
                best < i,
                best == lowest(all.take(i as int)),
            decreases all.len() - i,
        {
            proof {
                assert(all.take(i + 1).drop_last() =~= all.take(i as int));
                assert(all.take(i + 1).last() == all[i as int]);
                assert(all.take(i + 1)[best as int] == all[best as int]);
            }
            if self.entries[i].seq < self.entries[best].seq {
                best = i;
            }
            i += 1;
        }
        proof {
            assert(all.take(all.len() as int) =~= all);
        }
        Some(self.entries.remove(best))
    }

    /// Drops all entries.
    pub fn clear(&mut self)
        ensures
            final(self)@ == Seq::<NotifyEntry>::empty(),
    {
        self.entries.clear();
    }
}

} // verus!
