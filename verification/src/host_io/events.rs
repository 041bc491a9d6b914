//! Where events go: the fault latch, the trace ring, the general channel, and
//! the channel of host events.
//!
//! The channels themselves belong to the caller, who reports how each send
//! went.

use crate::fault::{latched, latches, FaultLatch};
use crate::host_io::runtime_events::{
    zero_status, CreditFreedEvent, FaultEvent, McuLogEvent, McuLogView, RuntimeEvent,
    RuntimeEventView, StatusEvent, TraceEvent, TraceView,
};
use crate::transport::{refused, SubscribeError};
use std::collections::VecDeque;
use vstd::prelude::*;

verus! {

/// How a send went.
#[derive(Debug, Clone, Copy, PartialEq, Eq, Structural)]
pub enum SendOutcome {
    Sent,
    Full,
    Disconnected,
}

/// What happened to the trace subscription.
#[derive(Debug, Clone, Copy, PartialEq, Eq, Structural)]
pub enum HostEvent {
    TraceSubscriberOverflow { dropped_count: u64, at: u64 },
    TraceSubscriberDisconnected { at: u64 },
    TraceSubscriberReattached { events_lost_during_gap: u64, at: u64 },
}

/// The trace subscription, and what it has lost.
#[derive(Debug)]
pub struct TraceRing {
    capacity: usize,
    sticky_overflow: bool,
    subscribed: bool,
    drop_count_since_event: u64,
    reports: bool,
}

/// Model of [`TraceRing`].
pub struct TraceRingView {
    pub capacity: usize,
    pub sticky_overflow: bool,
    pub subscribed: bool,
    pub drop_count_since_event: u64,
    pub reports: bool,
}

impl View for TraceRing {
    type V = TraceRingView;

    closed spec fn view(&self) -> TraceRingView {
        TraceRingView {
            capacity: self.capacity,
            sticky_overflow: self.sticky_overflow,
            subscribed: self.subscribed,
            drop_count_since_event: self.drop_count_since_event,
            reports: self.reports,
        }
    }
}

/// One more than a counter, modulo 2^64.
pub open spec fn counted_up(n: u64) -> u64 {
    ((n + 1) % 0x1_0000_0000_0000_0000) as u64
}

/// A trace event as it is sent: with the overflow flag, if events were lost
/// since the last that went through.
pub open spec fn marked(t: TraceRingView, e: TraceView) -> TraceView {
    if t.sticky_overflow {
        TraceView { flags: e.flags | 1, ..e }
    } else {
        e
    }
}

/// The ring after an event, and the host event that tells of it.
pub open spec fn traced(t: TraceRingView, outcome: SendOutcome, at: u64) -> (
    TraceRingView,
    Option<HostEvent>,
) {
    if !t.subscribed {
        (
            TraceRingView {
                drop_count_since_event: counted_up(t.drop_count_since_event),
                ..t
            },
            None,
        )
    } else {
        match outcome {
            SendOutcome::Sent => (TraceRingView { sticky_overflow: false, ..t }, None),
            SendOutcome::Full => {
                let n = counted_up(t.drop_count_since_event);
                (
                    TraceRingView { sticky_overflow: true, drop_count_since_event: n, ..t },
                    if t.reports {
                        Some(HostEvent::TraceSubscriberOverflow { dropped_count: n, at })
                    } else {
                        None
                    },
                )
            },
            SendOutcome::Disconnected => (
                TraceRingView {
                    subscribed: false,
                    sticky_overflow: false,
                    drop_count_since_event: 1,
                    ..t
                },
                if t.reports {
                    Some(HostEvent::TraceSubscriberDisconnected { at })
                } else {
                    None
                },
            ),
        }
    }
}

impl TraceRing {
    /// No subscriber.
    pub fn new(capacity: usize) -> (t: Self)
        ensures
            t@ == (TraceRingView {
                capacity,
                sticky_overflow: false,
                subscribed: false,
                drop_count_since_event: 0,
                reports: false,
            }),
    {
        TraceRing {
            capacity,
            sticky_overflow: false,
            subscribed: false,
            drop_count_since_event: 0,
            reports: false,
        }
    }

    /// Whether there is a subscriber to send to.
    pub fn is_subscribed(&self) -> (r: bool)
        ensures
            r == self@.subscribed,
    {
        self.subscribed
    }

    /// The event as it is to be sent.
    pub fn mark(&self, event: TraceEvent) -> (r: TraceEvent)
        ensures
            r@ == marked(self@, event@),
    {
        if self.sticky_overflow {
            TraceEvent { count: event.count, data: event.data, flags: event.flags | 1 }
        } else {
            event
        }
    }

    /// Takes in how the send of an event went, or, without a subscriber, that
    /// it was dropped.
    pub fn dispatch(&mut self, outcome: SendOutcome, at: u64) -> (r: Option<HostEvent>)
        ensures
            (final(self)@, r) == traced(old(self)@, outcome, at),
    {
        if !self.subscribed {
            self.drop_count_since_event = self.drop_count_since_event.wrapping_add(1);
            return None;
        }
        match outcome {
            SendOutcome::Sent => {
                self.sticky_overflow = false;
                None
            },
            SendOutcome::Full => {
                self.sticky_overflow = true;
                self.drop_count_since_event = self.drop_count_since_event.wrapping_add(1);
                if self.reports {
                    Some(
                        HostEvent::TraceSubscriberOverflow {
                            dropped_count: self.drop_count_since_event,
                            at,
                        },
                    )
                } else {
                    None
                }
            },
            SendOutcome::Disconnected => {
                self.subscribed = false;
                self.sticky_overflow = false;
                self.drop_count_since_event = 1;
                if self.reports {
                    Some(HostEvent::TraceSubscriberDisconnected { at })
                } else {
                    None
                }
            },
        }
    }

    /// Attaches the subscriber. Gives back the host event that tells of the
    /// events that were lost meanwhile.
    pub fn subscribe(&mut self, at: u64) -> (r: Result<Option<HostEvent>, SubscribeError>)
        ensures
            match r {
                Ok(told) => !old(self)@.subscribed && final(self)@ == (TraceRingView {
                    subscribed: true,
                    drop_count_since_event: 0,
                    ..old(self)@
                }) && told == (if old(self)@.drop_count_since_event > 0 && old(self)@.reports {
                    Some(
                        HostEvent::TraceSubscriberReattached {
                            events_lost_during_gap: old(self)@.drop_count_since_event,
                            at,
                        },
                    )
                } else {
                    None
                }),
                Err(e) => old(self)@.subscribed && final(self)@ == old(self)@ && refused(e, "trace"@),
            },
    {
        if self.subscribed {
            return Err(SubscribeError::AlreadySubscribed { channel: "trace" });
        }
        let mut told: Option<HostEvent> = None;
        if self.drop_count_since_event > 0 {
            if self.reports {
                told = Some(
                    HostEvent::TraceSubscriberReattached {
                        events_lost_during_gap: self.drop_count_since_event,
                        at,
                    },
                );
            }
            self.drop_count_since_event = 0;
        }
        self.subscribed = true;
        Ok(told)
    }

    /// From now on host events are told.
    pub fn set_host_event_tx(&mut self)
        ensures
            final(self)@ == (TraceRingView { reports: true, ..old(self)@ }),
    {
        self.reports = true;
    }
}

/// The subscription to the general events.
#[derive(Debug)]
pub struct RuntimeEventDispatcher {
    pub subscribed: bool,
}

/// Whether a subscription outlives a send.
pub open spec fn stays(subscribed: bool, outcome: SendOutcome) -> bool {
    subscribed && outcome != SendOutcome::Disconnected
}

impl RuntimeEventDispatcher {
    /// No subscriber.
    pub fn new() -> (d: Self)
        ensures
            !d.subscribed,
    {
        RuntimeEventDispatcher { subscribed: false }
    }

    /// Takes in how the send of an event went.
    pub fn dispatch(&mut self, outcome: SendOutcome)
        ensures
            final(self).subscribed == stays(old(self).subscribed, outcome),
    {
        if outcome == SendOutcome::Disconnected {
            self.subscribed = false;
        }
    }

    /// Attaches the subscriber.
    pub fn subscribe(&mut self) -> (r: Result<(), SubscribeError>)
        ensures
            final(self).subscribed,
            match r {
                Ok(_) => !old(self).subscribed,
                Err(e) => old(self).subscribed && refused(e, "runtime_event"@),
            },
    {
        if self.subscribed {
            return Err(SubscribeError::AlreadySubscribed { channel: "runtime_event" });
        }
        self.subscribed = true;
        Ok(())
    }
}

/// The host events that wait to be sent, and their subscription.
#[derive(Debug)]
pub struct HostEventDispatcher {
    inbox: VecDeque<HostEvent>,
    capacity: usize,
    subscribed: bool,
}

/// Model of [`HostEventDispatcher`].
#[verifier::ext_equal]
pub struct HostEventDispatcherView {
    pub inbox: Seq<HostEvent>,
    pub capacity: usize,
    pub subscribed: bool,
}

impl View for HostEventDispatcher {
    type V = HostEventDispatcherView;

    closed spec fn view(&self) -> HostEventDispatcherView {
        HostEventDispatcherView {
            inbox: self.inbox@,
            capacity: self.capacity,
            subscribed: self.subscribed,
        }
    }
}

/// The dispatcher with a host event more in its inbox, if it has room.
pub open spec fn posted(d: HostEventDispatcherView, e: Option<HostEvent>) -> HostEventDispatcherView {
    match e {
        Some(h) => if d.inbox.len() < d.capacity {
            HostEventDispatcherView { inbox: d.inbox.push(h), ..d }
        } else {
            d
        },
        None => d,
    }
}

impl HostEventDispatcher {
    /// An empty inbox, no subscriber.
    pub fn new(capacity: usize) -> (d: Self)
        ensures
            d@ == (HostEventDispatcherView { inbox: Seq::empty(), capacity, subscribed: false }),
    {
        HostEventDispatcher { inbox: VecDeque::new(), capacity, subscribed: false }
    }

    /// Puts a host event into the inbox; a full inbox drops it.
    pub fn post(&mut self, event: Option<HostEvent>)
        ensures
            final(self)@ == posted(old(self)@, event),
    {
        match event {
            Some(h) => {
                if self.inbox.len() < self.capacity {
                    self.inbox.push_back(h);
                }
            },
            None => {},
        }
    }

    /// Takes all events out of the inbox, to be sent in order while there is a
    /// subscriber.
    pub fn drain_pending(&mut self) -> (r: Vec<HostEvent>)
        ensures
            r@ == old(self)@.inbox,
            final(self)@ == (HostEventDispatcherView { inbox: Seq::empty(), ..old(self)@ }),
    {
        let mut out: Vec<HostEvent> = Vec::new();
        let ghost all = self.inbox@;
        while self.inbox.len() > 0
            invariant
                out@ + self.inbox@ == all,
                self@.capacity == old(self)@.capacity,
                self@.subscribed == old(self)@.subscribed,
            decreases self.inbox@.len(),
        {
            match self.inbox.pop_front() {
                Some(e) => {
                    out.push(e);
                    proof {
                        assert(out@ + self.inbox@ =~= all);
                    }
                },
                None => {},
            }
        }
        proof {
            assert(out@ =~= all);
            assert(self.inbox@ =~= Seq::<HostEvent>::empty());
        }
        out
    }

    /// Takes in how the send of an event went.
    pub fn dispatch(&mut self, outcome: SendOutcome)
        ensures
            final(self)@ == (HostEventDispatcherView {
                subscribed: stays(old(self)@.subscribed, outcome),
                ..old(self)@
            }),
    {
        if outcome == SendOutcome::Disconnected {
            self.subscribed = false;
        }
    }

    /// Attaches the subscriber.
    pub fn subscribe(&mut self) -> (r: Result<(), SubscribeError>)
        ensures
            final(self)@ == (HostEventDispatcherView { subscribed: true, ..old(self)@ }),
            match r {
                Ok(_) => !old(self)@.subscribed,
                Err(e) => old(self)@.subscribed && refused(e, "host_event"@),
            },
    {
        if self.subscribed {
            return Err(SubscribeError::AlreadySubscribed { channel: "host_event" });
        }
        self.subscribed = true;
        Ok(())
    }

    /// Whether there is a subscriber to send to.
    pub fn sender_handle(&self) -> (r: bool)
        ensures
            r == self@.subscribed,
    {
        self.subscribed
    }
}

/// What the caller is to do with an event, in order.
#[derive(Debug)]
pub enum Delivery {
    /// Publish the status.
    Snapshot(StatusEvent),
    /// Send to the fault subscriber.
    Fault(FaultEvent),
    /// Send to the general subscriber, if there is one then, and report how it
    /// went.
    Runtime(RuntimeEvent),
    /// Send to the trace subscriber and report how it went.
    Trace(TraceEvent),
    /// Hand to the heartbeat callback.
    Heartbeat(Vec<u32>),
    /// Hand to the log hook.
    McuLog(McuLogEvent),
}

/// Model of [`Delivery`].
#[verifier::ext_equal]
pub enum DeliveryView {
    Snapshot(StatusEvent),
    Fault(FaultEvent),
    Runtime(RuntimeEventView),
    Trace(TraceView),
    Heartbeat(Seq<u32>),
    McuLog(McuLogView),
}

impl View for Delivery {
    type V = DeliveryView;

    open spec fn view(&self) -> DeliveryView {
        match self {
            Delivery::Snapshot(s) => DeliveryView::Snapshot(*s),
            Delivery::Fault(f) => DeliveryView::Fault(*f),
            Delivery::Runtime(e) => DeliveryView::Runtime(e@),
            Delivery::Trace(t) => DeliveryView::Trace(t@),
            Delivery::Heartbeat(c) => DeliveryView::Heartbeat(c@),
            Delivery::McuLog(e) => DeliveryView::McuLog(e@),
        }
    }
}

/// Deliveries, as models.
pub open spec fn delivery_views(v: Seq<Delivery>) -> Seq<DeliveryView> {
    Seq::new(v.len(), |i: int| v[i]@)
}

/// The status that means a fault.
pub const ENGINE_STATUS_FAULT: u8 = 3;

/// The segments that the firmware's queue takes.
pub const QUEUE_SLOTS: u8 = 7;

/// Distributes events.
#[derive(Debug)]
pub struct EventDispatcher {
    pub fault_latch: FaultLatch,
    pub trace_ring: TraceRing,
    pub status_snapshot: StatusEvent,
    pub runtime_event_dispatcher: RuntimeEventDispatcher,
    pub host_event_dispatcher: HostEventDispatcher,
    pub heartbeat_callback: bool,
    pub mcu_log_hook: bool,
    status_retired_watermark: u32,
}

/// Model of [`EventDispatcher`].
#[verifier::ext_equal]
pub struct EventDispatcherView {
    pub fault_cell: Option<FaultEvent>,
    pub fault_subscribed: bool,
    pub trace_ring: TraceRingView,
    pub status_snapshot: StatusEvent,
    pub runtime_subscribed: bool,
    pub host_events: HostEventDispatcherView,
    pub heartbeat_callback: bool,
    pub mcu_log_hook: bool,
    pub status_retired_watermark: u32,
}

impl View for EventDispatcher {
    type V = EventDispatcherView;

    closed spec fn view(&self) -> EventDispatcherView {
        EventDispatcherView {
            fault_cell: self.fault_latch.cell,
            fault_subscribed: self.fault_latch.subscribed,
            trace_ring: self.trace_ring@,
            status_snapshot: self.status_snapshot,
            runtime_subscribed: self.runtime_event_dispatcher.subscribed,
            host_events: self.host_event_dispatcher@,
            heartbeat_callback: self.heartbeat_callback,
            mcu_log_hook: self.mcu_log_hook,
            status_retired_watermark: self.status_retired_watermark,
        }
    }
}

/// What a fault leads to: the latch, and a delivery to its subscriber.
pub open spec fn fault_taken(d: EventDispatcherView, f: FaultEvent) -> (
    EventDispatcherView,
    Seq<DeliveryView>,
) {
    (
        EventDispatcherView { fault_cell: latched(d.fault_cell, f), ..d },
        if latches(d.fault_cell, f) && d.fault_subscribed {
            seq![DeliveryView::Fault(f)]
        } else {
            Seq::empty()
        },
    )
}

/// The fault that a status tells of, if none is held yet.
pub open spec fn fault_in_status(d: EventDispatcherView, s: StatusEvent) -> Option<FaultEvent> {
    if s.engine_status == ENGINE_STATUS_FAULT && d.fault_cell is None {
        Some(
            FaultEvent {
                fault_code: s.last_fault,
                fault_detail: s.fault_detail,
                segment_id: s.current_segment_id,
                synthesized: true,
            },
        )
    } else {
        None
    }
}

/// Whether a segment number is past another, in the half of the numbers that
/// follows it.
pub open spec fn past(a: u32, b: u32) -> bool {
    0 < (a - b) % 0x1_0000_0000 < 0x8000_0000
}

/// The credit that a status tells of: when more segments are retired than at
/// the last status.
pub open spec fn credit_in_status(d: EventDispatcherView, s: StatusEvent) -> Option<
    CreditFreedEvent,
> {
    if past(s.retired_through_segment_id, d.status_retired_watermark) {
        Some(
            CreditFreedEvent {
                retired_through_segment_id: s.retired_through_segment_id,
                free_slots: if s.queue_depth >= QUEUE_SLOTS {
                    0
                } else {
                    (QUEUE_SLOTS - s.queue_depth) as u8
                },
            },
        )
    } else {
        None
    }
}

/// What a status leads to: it is published; a fault that nobody has reported
/// is synthesized from it; and it goes to the general channel, with the credit
/// that it frees behind it.
pub open spec fn status_taken(d: EventDispatcherView, s: StatusEvent) -> (
    EventDispatcherView,
    Seq<DeliveryView>,
) {
    let shown = EventDispatcherView { status_snapshot: s, ..d };
    let (with_fault, told) = match fault_in_status(d, s) {
        Some(f) => fault_taken(shown, f),
        None => (shown, Seq::empty()),
    };
    let head = seq![DeliveryView::Snapshot(s)] + told + seq![
        DeliveryView::Runtime(RuntimeEventView::Status(s)),
    ];
    match credit_in_status(d, s) {
        Some(c) => (
            EventDispatcherView {
                status_retired_watermark: s.retired_through_segment_id,
                ..with_fault
            },
            head.push(DeliveryView::Runtime(RuntimeEventView::CreditFreed(c))),
        ),
        None => (with_fault, head),
    }
}

/// What an event leads to.
pub open spec fn event_taken(d: EventDispatcherView, e: RuntimeEventView) -> (
    EventDispatcherView,
    Seq<DeliveryView>,
) {
    match e {
        RuntimeEventView::Fault(f) => {
            let t = fault_taken(d, f);
            (t.0, t.1.push(DeliveryView::Runtime(e)))
        },
        RuntimeEventView::Trace(t) => (
            d,
            seq![DeliveryView::Trace(marked(d.trace_ring, t))],
        ),
        RuntimeEventView::Status(s) => status_taken(d, s),
        RuntimeEventView::Heartbeat { retired_counts } => (
            d,
            if d.heartbeat_callback {
                seq![DeliveryView::Heartbeat(retired_counts)]
            } else {
                Seq::empty()
            },
        ),
        RuntimeEventView::McuLog(l) => (
            d,
            if d.mcu_log_hook {
                seq![DeliveryView::McuLog(l), DeliveryView::Runtime(e)]
            } else {
                seq![DeliveryView::Runtime(e)]
            },
        ),
        _ => (d, seq![DeliveryView::Runtime(e)]),
    }
}

/// A copy of a log record.
fn copy_log(e: &McuLogEvent) -> (r: McuLogEvent)
    ensures
        r@ == e@,
{
    McuLogEvent {
        mcu_tick: e.mcu_tick,
        level: e.level,
        subsystem: e.subsystem,
        event: e.event,
        code: e.code,
        seq: e.seq,
        args: vstd::slice::slice_to_vec(e.args.as_slice()),
        host_recv: e.host_recv,
    }
}

impl EventDispatcher {
    /// No subscribers, no faults. Host events of the trace ring are told.
    pub fn new(trace_capacity: usize, host_event_capacity: usize) -> (d: Self)
        ensures
            d@ == (EventDispatcherView {
                fault_cell: None,
                fault_subscribed: false,
                trace_ring: TraceRingView {
                    capacity: trace_capacity,
                    sticky_overflow: false,
                    subscribed: false,
                    drop_count_since_event: 0,
                    reports: true,
                },
                status_snapshot: zero_status(),
                runtime_subscribed: false,
                host_events: HostEventDispatcherView {
                    inbox: Seq::empty(),
                    capacity: host_event_capacity,
                    subscribed: false,
                },
                heartbeat_callback: false,
                mcu_log_hook: false,
                status_retired_watermark: 0,
            }),
    {
        let mut trace_ring: TraceRing = TraceRing::new(trace_capacity);
        trace_ring.set_host_event_tx();
        EventDispatcher {
            fault_latch: FaultLatch::new(),
            trace_ring,
            status_snapshot: StatusEvent {
                engine_status: 0,
                queue_depth: 0,
                current_segment_id: 0,
                last_fault: 0,
                fault_detail: 0,
                retired_through_segment_id: 0,
            },
            runtime_event_dispatcher: RuntimeEventDispatcher::new(),
            host_event_dispatcher: HostEventDispatcher::new(host_event_capacity),
            heartbeat_callback: false,
            mcu_log_hook: false,
            status_retired_watermark: 0,
        }
    }

    /// From now on log records are handed to a hook.
    pub fn set_mcu_log_hook(&mut self)
        ensures
            final(self)@ == (EventDispatcherView { mcu_log_hook: true, ..old(self)@ }),
    {
        self.mcu_log_hook = true;
    }

    /// Takes a status in.
    fn handle_status_frame(&mut self, out: &mut Vec<Delivery>, s: StatusEvent)
        requires
            old(out)@.len() == 0,
        ensures
            final(self)@ == status_taken(old(self)@, s).0,
            delivery_views(final(out)@) == status_taken(old(self)@, s).1,
    {
        self.status_snapshot = s;
        out.push(Delivery::Snapshot(s));
        if s.engine_status == ENGINE_STATUS_FAULT && self.fault_latch.cell.is_none() {
            let f = FaultEvent {
                fault_code: s.last_fault,
                fault_detail: s.fault_detail,
                segment_id: s.current_segment_id,
                synthesized: true,
            };
            match self.fault_latch.dispatch(f) {
                Some(told) => {
                    out.push(Delivery::Fault(told));
                },
                None => {},
            }
        }
        out.push(Delivery::Runtime(RuntimeEvent::Status(s)));
        let watermark: u32 = s.retired_through_segment_id;
        let ahead: u32 = watermark.wrapping_sub(self.status_retired_watermark);
        if 0 < ahead && ahead < 0x8000_0000 {
            self.status_retired_watermark = watermark;
            let free_slots: u8 = QUEUE_SLOTS.saturating_sub(s.queue_depth);
            out.push(
                Delivery::Runtime(
                    RuntimeEvent::CreditFreed(
                        CreditFreedEvent { retired_through_segment_id: watermark, free_slots },
                    ),
                ),
            );
        }
        proof {
            assert(delivery_views(out@) =~= status_taken(old(self)@, s).1);
        }
    }

    /// Takes an event in, and says what to deliver where.
    pub fn dispatch(&mut self, event: RuntimeEvent) -> (r: Vec<Delivery>)
        ensures
            final(self)@ == event_taken(old(self)@, event@).0,
            delivery_views(r@) == event_taken(old(self)@, event@).1,
    {
        let ghost ev = event@;
        let mut out: Vec<Delivery> = Vec::new();
        match event {
            RuntimeEvent::Fault(f) => {
                match self.fault_latch.dispatch(f) {
                    Some(told) => {
                        out.push(Delivery::Fault(told));
                    },
                    None => {},
                }
                out.push(Delivery::Runtime(RuntimeEvent::Fault(f)));
            },
            RuntimeEvent::Trace(t) => {
                out.push(Delivery::Trace(self.trace_ring.mark(t)));
            },
            RuntimeEvent::Status(s) => {
                self.handle_status_frame(&mut out, s);
            },
            RuntimeEvent::Heartbeat { retired_counts } => {
                if self.heartbeat_callback {
                    out.push(Delivery::Heartbeat(retired_counts));
                }
            },
            RuntimeEvent::McuLog(l) => {
                if self.mcu_log_hook {
                    out.push(Delivery::McuLog(copy_log(&l)));
                }
                out.push(Delivery::Runtime(RuntimeEvent::McuLog(l)));
            },
            other => {
                out.push(Delivery::Runtime(other));
            },
        }
        proof {
            assert(delivery_views(out@) =~= event_taken(old(self)@, ev).1);
        }
        out
    }

    /// Takes in how the send of a trace event went, and keeps the host event
    /// that tells of it.
    pub fn trace_sent(&mut self, outcome: SendOutcome, at: u64)
        ensures
            ({
                let t = traced(old(self)@.trace_ring, outcome, at);
                final(self)@ == (EventDispatcherView {
                    trace_ring: t.0,
                    host_events: posted(old(self)@.host_events, t.1),
                    ..old(self)@
                })
            }),
    {
        let told: Option<HostEvent> = self.trace_ring.dispatch(outcome, at);
        self.host_event_dispatcher.post(told);
    }
}

/// Every event that is lost is told: the next event that goes through carries
/// the overflow flag.
pub proof fn law_overflow_is_flagged(t: TraceRingView, e: TraceView, at: u64)
    requires
        t.subscribed,
    ensures
        marked(traced(t, SendOutcome::Full, at).0, e).flags & 1 == 1,
        !traced(t, SendOutcome::Sent, at).0.sticky_overflow,
{
    let f = e.flags;
    assert((f | 1) & 1 == 1) by (bit_vector);
}

/// A status with a fault is never overlooked: after it a fault is held.
pub proof fn law_status_fault_is_held(d: EventDispatcherView, s: StatusEvent)
    requires
        s.engine_status == ENGINE_STATUS_FAULT,
    ensures
        status_taken(d, s).0.fault_cell is Some,
{
}

} // verus!
