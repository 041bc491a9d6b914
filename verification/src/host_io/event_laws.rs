//! What events say, and who hears of them.

use crate::endstop::{law_trip_is_read, TripStepperRecord};
use crate::host_io::events::{
    event_taken, fault_in_status, fault_taken, past, posted, stays, status_taken, traced,
    DeliveryView, EventDispatcherView, HostEvent, HostEventDispatcherView, SendOutcome, TraceRingView,
};
use crate::host_io::runtime_events::{
    lifted, CreditFreedEvent, FaultEvent, RuntimeEventView, StatusEvent, TraceView,
};
use crate::transport::{param_bytes, param_u32, ParamsView};
use vstd::prelude::*;

verus! {

/// A report of freed credit is read as it was sent.
pub proof fn law_credit_report_is_read(p: ParamsView, retired: u32, free: u8)
    requires
        param_u32(p, "retired_through_segment_id"@) == Some(retired),
        param_u32(p, "free_slots"@) == Some(free as u32),
    ensures
        lifted("kalico_credit_freed"@, p) == RuntimeEventView::CreditFreed(
            CreditFreedEvent { retired_through_segment_id: retired, free_slots: free },
        ),
{
}

/// A fault is read as it was sent, and is a real one.
pub proof fn law_fault_report_is_read(p: ParamsView, code: u16, detail: u32, segment: u32)
    requires
        param_u32(p, "fault_code"@) == Some(code as u32),
        param_u32(p, "fault_detail"@) == Some(detail),
        param_u32(p, "segment_id"@) == Some(segment),
    ensures
        lifted("kalico_fault"@, p) == RuntimeEventView::Fault(
            FaultEvent {
                fault_code: code,
                fault_detail: detail,
                segment_id: segment,
                synthesized: false,
            },
        ),
{
    lemma_names();
}

/// A status is read as it was sent.
pub proof fn law_status_report_is_read(p: ParamsView, s: StatusEvent)
    requires
        param_u32(p, "engine_status"@) == Some(s.engine_status as u32),
        param_u32(p, "queue_depth"@) == Some(s.queue_depth as u32),
        param_u32(p, "current_segment_id"@) == Some(s.current_segment_id),
        param_u32(p, "last_fault"@) == Some(s.last_fault as u32),
        param_u32(p, "fault_detail"@) == Some(s.fault_detail),
        param_u32(p, "retired_through_segment_id"@) == Some(s.retired_through_segment_id),
    ensures
        lifted("kalico_status_v6"@, p) == RuntimeEventView::Status(s),
{
    lemma_names();
}

/// A trace is read as it was sent.
pub proof fn law_trace_report_is_read(p: ParamsView, count: u32, data: Seq<u8>)
    requires
        param_u32(p, "count"@) == Some(count),
        param_bytes(p, "data"@) == Some(data),
    ensures
        lifted("kalico_trace"@, p) == RuntimeEventView::Trace(TraceView { count, data, flags: 0 }),
{
    lemma_names();
}

/// A trip is read as it was sent, with all its steppers.
pub proof fn law_trip_report_is_read(
    p: ParamsView,
    arm_id: u32,
    trip_clock: u64,
    source: u8,
    rs: Seq<TripStepperRecord>,
    blob: Seq<u8>,
)
    requires
        rs.len() <= 255,
        crate::endstop::holds_steppers(blob, rs),
        param_u32(p, "arm_id"@) == Some(arm_id),
        param_u32(p, "trip_clock_lo"@) == Some((trip_clock % 0x1_0000_0000) as u32),
        param_u32(p, "trip_clock_hi"@) == Some((trip_clock / 0x1_0000_0000) as u32),
        param_u32(p, "trip_source_idx"@) == Some(source as u32),
        param_u32(p, "fmt_version"@) == Some(1u32),
        param_u32(p, "stepper_count"@) == Some(rs.len() as u32),
        param_bytes(p, "stepper_data"@) == Some(blob),
    ensures
        lifted("kalico_endstop_tripped"@, p) matches RuntimeEventView::EndstopTripped(t) && {
            &&& t.arm_id == arm_id
            &&& t.trip_clock == trip_clock
            &&& t.trip_source_idx == source
            &&& t.fmt_version == 1
            &&& t.stepper_count == rs.len()
            &&& t.steppers == rs
        },
{
    lemma_names();
    law_trip_is_read(p, arm_id, trip_clock, source, rs, blob);
}

/// The names of outputs are told apart.
proof fn lemma_names()
    ensures
        "kalico_fault"@ != "kalico_credit_freed"@,
        "kalico_status_v6"@ != "kalico_credit_freed"@,
        "kalico_status_v6"@ != "kalico_fault"@,
        "kalico_trace"@ != "kalico_credit_freed"@,
        "kalico_trace"@ != "kalico_fault"@,
        "kalico_trace"@ != "kalico_status_v6"@,
        "kalico_endstop_tripped"@ != "kalico_credit_freed"@,
        "kalico_endstop_tripped"@ != "kalico_fault"@,
        "kalico_endstop_tripped"@ != "kalico_status_v6"@,
        "kalico_endstop_tripped"@ != "kalico_trace"@,
{
    reveal_strlit("kalico_credit_freed");
    reveal_strlit("kalico_fault");
    reveal_strlit("kalico_status_v6");
    reveal_strlit("kalico_trace");
    reveal_strlit("kalico_endstop_tripped");
    assert("kalico_credit_freed"@.len() == 19);
    assert("kalico_fault"@.len() == 12);
    assert("kalico_status_v6"@.len() == 16);
    assert("kalico_trace"@.len() == 12);
    assert("kalico_endstop_tripped"@.len() == 22);
    assert("kalico_fault"@[7] == 'f');
    assert("kalico_trace"@[7] == 't');
}

/// Segment numbers go round: one is past another if it is ahead of it by less
/// than half of all numbers.
pub proof fn law_past_goes_round(b: u32, ahead: u32)
    ensures
        past(((b + ahead) % 0x1_0000_0000) as u32, b) <==> 0 < ahead < 0x8000_0000,
{
}

/// Credit that is freed is told of once: a status that tells of more retired
/// segments gives as many free places as its queue leaves of seven, and the
/// same status again gives none.
pub proof fn law_credit_is_told_once(d: EventDispatcherView, s: StatusEvent)
    ensures
        ({
            let (w, told) = status_taken(d, s);
            &&& past(s.retired_through_segment_id, d.status_retired_watermark) ==> (told.last()
                matches DeliveryView::Runtime(RuntimeEventView::CreditFreed(c))
                && c.retired_through_segment_id == s.retired_through_segment_id && (s.queue_depth
                <= 7 ==> c.free_slots + s.queue_depth == 7) && (s.queue_depth > 7 ==> c.free_slots
                == 0))
            &&& !past(s.retired_through_segment_id, d.status_retired_watermark) ==> told.last()
                == DeliveryView::Runtime(RuntimeEventView::Status(s))
            &&& status_taken(w, s).1.last() == DeliveryView::Runtime(RuntimeEventView::Status(s))
            &&& told[0] == DeliveryView::Snapshot(s)
            &&& w.status_snapshot == s
        }),
{
}

/// Everything that is not a trace or a heartbeat goes to the general channel;
/// a trace goes to its own, with the overflow flag where events were lost; a
/// heartbeat to its callback alone.
pub proof fn law_events_reach_their_channel(d: EventDispatcherView, e: RuntimeEventView)
    ensures
        ({
            let told = event_taken(d, e).1;
            match e {
                RuntimeEventView::Trace(t) => told.len() == 1 && (told[0] matches
                    DeliveryView::Trace(x) && x.count == t.count && x.data == t.data && (
                !d.trace_ring.sticky_overflow ==> x.flags == t.flags) && (
                d.trace_ring.sticky_overflow ==> x.flags == t.flags | 1)),
                RuntimeEventView::Heartbeat { retired_counts } => told == if d.heartbeat_callback {
                    seq![DeliveryView::Heartbeat(retired_counts)]
                } else {
                    Seq::empty()
                },
                RuntimeEventView::Status(s) => told.contains(DeliveryView::Runtime(e)),
                _ => told.len() > 0 && told.last() == DeliveryView::Runtime(e),
            }
        }),
{
    match e {
        RuntimeEventView::Status(s) => {
            let (with_fault, told) = match fault_in_status(d, s) {
                Some(f) => fault_taken(EventDispatcherView { status_snapshot: s, ..d }, f),
                None => (EventDispatcherView { status_snapshot: s, ..d }, Seq::empty()),
            };
            let all = event_taken(d, e).1;
            assert(all[1 + told.len() as int] == DeliveryView::Runtime(e));
        },
        _ => {},
    }
}

/// A fault reaches its subscriber where it is held, before it goes to the
/// general channel, and is held from then on.
pub proof fn law_fault_reaches_its_subscriber(d: EventDispatcherView, f: FaultEvent)
    requires
        d.fault_cell is None,
    ensures
        ({
            let (w, told) = event_taken(d, RuntimeEventView::Fault(f));
            &&& w.fault_cell == Some(f)
            &&& told == if d.fault_subscribed {
                seq![DeliveryView::Fault(f), DeliveryView::Runtime(RuntimeEventView::Fault(f))]
            } else {
                seq![DeliveryView::Runtime(RuntimeEventView::Fault(f))]
            }
        }),
{
}

/// A trace that found no room is counted and told of, and marks the next that
/// goes through; one that went through clears the mark.
pub proof fn law_lost_traces_are_counted(t: TraceRingView, at: u64)
    requires
        t.subscribed,
        t.reports,
        t.drop_count_since_event < u64::MAX,
    ensures
        ({
            let (w, told) = traced(t, SendOutcome::Full, at);
            &&& w.sticky_overflow
            &&& w.drop_count_since_event == t.drop_count_since_event + 1
            &&& told == Some(
                HostEvent::TraceSubscriberOverflow {
                    dropped_count: (t.drop_count_since_event + 1) as u64,
                    at,
                },
            )
            &&& !traced(w, SendOutcome::Sent, at).0.sticky_overflow
            &&& traced(w, SendOutcome::Sent, at).1 is None
            &&& !traced(t, SendOutcome::Disconnected, at).0.subscribed
        }),
{
}

/// A status that tells of a fault before the fault itself came gives one in its
/// place, which a real one replaces later; a status without a fault gives none.
pub proof fn law_fault_in_status(d: EventDispatcherView, s: StatusEvent, later: FaultEvent)
    requires
        d.fault_cell is None,
        !later.synthesized,
    ensures
        ({
            let (w, told) = status_taken(d, s);
            &&& s.engine_status == 3 ==> w.fault_cell == Some(
                FaultEvent {
                    fault_code: s.last_fault,
                    fault_detail: s.fault_detail,
                    segment_id: s.current_segment_id,
                    synthesized: true,
                },
            ) && (d.fault_subscribed ==> told[1] == DeliveryView::Fault(w.fault_cell->0))
            &&& s.engine_status != 3 ==> w.fault_cell is None && told[1] == DeliveryView::Runtime(
                RuntimeEventView::Status(s),
            )
            &&& event_taken(w, RuntimeEventView::Fault(later)).0.fault_cell == Some(later)
        }),
{
}

/// A host event is kept while the inbox has room, behind those before it; a full
/// inbox stays as it is.
pub proof fn law_host_events_wait(d: HostEventDispatcherView, e: HostEvent)
    ensures
        d.inbox.len() < d.capacity ==> posted(d, Some(e)).inbox == d.inbox.push(e),
        d.inbox.len() >= d.capacity ==> posted(d, Some(e)) == d,
        posted(d, None) == d,
        posted(d, Some(e)).capacity == d.capacity,
        posted(d, Some(e)).subscribed == d.subscribed,
{
}

/// A subscriber stays as long as it can be reached, also where it has no room.
pub proof fn law_subscriber_stays(subscribed: bool)
    ensures
        stays(subscribed, SendOutcome::Sent) == subscribed,
        stays(subscribed, SendOutcome::Full) == subscribed,
        !stays(subscribed, SendOutcome::Disconnected),
{
}

} // verus!
