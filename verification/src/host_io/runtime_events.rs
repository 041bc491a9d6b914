//! Events that the firmware reports while it runs.

use crate::endstop::{
    clock_of, decode_trip_event, join_clock, low_byte, to_byte, trip_of, TripStepperRecord,
};
use crate::text::{copy_text, same_text};
use crate::transport::{
    param_bytes, param_str, param_u32_or_zero, MessageParams, ParamsView,
};
use vstd::prelude::*;

verus! {

/// Segments have been retired.
#[derive(Debug, Clone, Copy, PartialEq, Eq, Structural)]
pub struct CreditFreedEvent {
    pub retired_through_segment_id: u32,
    pub free_slots: u8,
}

/// A fault. A synthesized one was concluded from a status, not reported.
#[derive(Debug, Clone, Copy, PartialEq, Eq, Structural)]
pub struct FaultEvent {
    pub fault_code: u16,
    pub fault_detail: u32,
    pub segment_id: u32,
    pub synthesized: bool,
}

/// The periodic status.
#[derive(Debug, Clone, Copy, PartialEq, Eq, Structural)]
pub struct StatusEvent {
    pub engine_status: u8,
    pub queue_depth: u8,
    pub current_segment_id: u32,
    pub last_fault: u16,
    pub fault_detail: u32,
    pub retired_through_segment_id: u32,
}

/// A status of zeros.
pub open spec fn zero_status() -> StatusEvent {
    StatusEvent {
        engine_status: 0,
        queue_depth: 0,
        current_segment_id: 0,
        last_fault: 0,
        fault_detail: 0,
        retired_through_segment_id: 0,
    }
}

impl Default for StatusEvent {
    fn default() -> (s: Self)
        ensures
            s == zero_status(),
    {
        StatusEvent {
            engine_status: 0,
            queue_depth: 0,
            current_segment_id: 0,
            last_fault: 0,
            fault_detail: 0,
            retired_through_segment_id: 0,
        }
    }
}

/// Trace data.
#[derive(Debug)]
pub struct TraceEvent {
    pub count: u32,
    pub data: Vec<u8>,
    pub flags: u32,
}

/// Model of [`TraceEvent`].
#[verifier::ext_equal]
pub struct TraceView {
    pub count: u32,
    pub data: Seq<u8>,
    pub flags: u32,
}

impl View for TraceEvent {
    type V = TraceView;

    open spec fn view(&self) -> TraceView {
        TraceView { count: self.count, data: self.data@, flags: self.flags }
    }
}

/// An endstop has tripped.
#[derive(Debug)]
pub struct EndstopTrippedEvent {
    pub arm_id: u32,
    pub trip_clock: u64,
    pub trip_source_idx: u8,
    pub fmt_version: u8,
    pub stepper_count: u8,
    pub steppers: Vec<TripStepperRecord>,
}

/// Model of [`EndstopTrippedEvent`].
#[verifier::ext_equal]
pub struct EndstopTrippedView {
    pub arm_id: u32,
    pub trip_clock: u64,
    pub trip_source_idx: u8,
    pub fmt_version: u8,
    pub stepper_count: u8,
    pub steppers: Seq<TripStepperRecord>,
}

impl View for EndstopTrippedEvent {
    type V = EndstopTrippedView;

    open spec fn view(&self) -> EndstopTrippedView {
        EndstopTrippedView {
            arm_id: self.arm_id,
            trip_clock: self.trip_clock,
            trip_source_idx: self.trip_source_idx,
            fmt_version: self.fmt_version,
            stepper_count: self.stepper_count,
            steppers: self.steppers@,
        }
    }
}

/// A log record of the firmware, with the time it was received.
#[derive(Debug)]
pub struct McuLogEvent {
    pub mcu_tick: u64,
    pub level: u8,
    pub subsystem: u8,
    pub event: u16,
    pub code: u32,
    pub seq: u32,
    pub args: Vec<u32>,
    pub host_recv: u64,
}

/// Model of [`McuLogEvent`].
#[verifier::ext_equal]
pub struct McuLogView {
    pub mcu_tick: u64,
    pub level: u8,
    pub subsystem: u8,
    pub event: u16,
    pub code: u32,
    pub seq: u32,
    pub args: Seq<u32>,
    pub host_recv: u64,
}

impl View for McuLogEvent {
    type V = McuLogView;

    open spec fn view(&self) -> McuLogView {
        McuLogView {
            mcu_tick: self.mcu_tick,
            level: self.level,
            subsystem: self.subsystem,
            event: self.event,
            code: self.code,
            seq: self.seq,
            args: self.args@,
            host_recv: self.host_recv,
        }
    }
}

/// An event of the running firmware.
#[derive(Debug)]
pub enum RuntimeEvent {
    CreditFreed(CreditFreedEvent),
    Fault(FaultEvent),
    Status(StatusEvent),
    Trace(TraceEvent),
    EndstopTripped(EndstopTrippedEvent),
    /// The retired pieces of each axis.
    Heartbeat { retired_counts: Vec<u32> },
    /// An output that is none of the known ones.
    UnknownOutput { format: String, msg: String },
    /// A response that nobody waits for.
    PassthroughResponse { name: String, params: MessageParams },
    McuLog(McuLogEvent),
}

/// Model of [`RuntimeEvent`].
#[verifier::ext_equal]
pub enum RuntimeEventView {
    CreditFreed(CreditFreedEvent),
    Fault(FaultEvent),
    Status(StatusEvent),
    Trace(TraceView),
    EndstopTripped(EndstopTrippedView),
    Heartbeat { retired_counts: Seq<u32> },
    UnknownOutput { format: Seq<char>, msg: Seq<char> },
    PassthroughResponse { name: Seq<char>, params: ParamsView },
    McuLog(McuLogView),
}

impl View for RuntimeEvent {
    type V = RuntimeEventView;

    open spec fn view(&self) -> RuntimeEventView {
        match self {
            RuntimeEvent::CreditFreed(e) => RuntimeEventView::CreditFreed(*e),
            RuntimeEvent::Fault(e) => RuntimeEventView::Fault(*e),
            RuntimeEvent::Status(e) => RuntimeEventView::Status(*e),
            RuntimeEvent::Trace(e) => RuntimeEventView::Trace(e@),
            RuntimeEvent::EndstopTripped(e) => RuntimeEventView::EndstopTripped(e@),
            RuntimeEvent::Heartbeat { retired_counts } => RuntimeEventView::Heartbeat {
                retired_counts: retired_counts@,
            },
            RuntimeEvent::UnknownOutput { format, msg } => RuntimeEventView::UnknownOutput {
                format: format@,
                msg: msg@,
            },
            RuntimeEvent::PassthroughResponse { name, params } => {
                RuntimeEventView::PassthroughResponse { name: name@, params: params@ }
            },
            RuntimeEvent::McuLog(e) => RuntimeEventView::McuLog(e@),
        }
    }
}

/// The low half of a number.
pub open spec fn low_half(v: u32) -> u16 {
    (v % 0x1_0000) as u16
}

/// The low half of a number.
pub fn to_half(v: u32) -> (r: u16)
    ensures
        r == low_half(v),
{
    (v % 0x1_0000) as u16
}

/// The endstop event that fields hold. Where the steppers cannot be read, the
/// event has none.
pub open spec fn tripped_of(p: ParamsView) -> EndstopTrippedView {
    let fmt_version = low_byte(param_u32_or_zero(p, "fmt_version"@));
    let stepper_count = low_byte(param_u32_or_zero(p, "stepper_count"@));
    match trip_of(p) {
        Ok(t) => EndstopTrippedView {
            arm_id: t.arm_id,
            trip_clock: t.trip_clock,
            trip_source_idx: t.trip_source_idx,
            fmt_version,
            stepper_count,
            steppers: t.steppers,
        },
        Err(_) => EndstopTrippedView {
            arm_id: param_u32_or_zero(p, "arm_id"@),
            trip_clock: clock_of(
                param_u32_or_zero(p, "trip_clock_lo"@),
                param_u32_or_zero(p, "trip_clock_hi"@),
            ),
            trip_source_idx: low_byte(param_u32_or_zero(p, "trip_source_idx"@)),
            fmt_version,
            stepper_count,
            steppers: Seq::empty(),
        },
    }
}

/// The event that an output is, by its name and its fields. A field that is
/// missing counts as zero.
pub open spec fn lifted(name: Seq<char>, p: ParamsView) -> RuntimeEventView {
    if name == "kalico_credit_freed"@ {
        RuntimeEventView::CreditFreed(
            CreditFreedEvent {
                retired_through_segment_id: param_u32_or_zero(p, "retired_through_segment_id"@),
                free_slots: low_byte(param_u32_or_zero(p, "free_slots"@)),
            },
        )
    } else if name == "kalico_fault"@ {
        RuntimeEventView::Fault(
            FaultEvent {
                fault_code: low_half(param_u32_or_zero(p, "fault_code"@)),
                fault_detail: param_u32_or_zero(p, "fault_detail"@),
                segment_id: param_u32_or_zero(p, "segment_id"@),
                synthesized: false,
            },
        )
    } else if name == "kalico_status_v6"@ {
        RuntimeEventView::Status(
            StatusEvent {
                engine_status: low_byte(param_u32_or_zero(p, "engine_status"@)),
                queue_depth: low_byte(param_u32_or_zero(p, "queue_depth"@)),
                current_segment_id: param_u32_or_zero(p, "current_segment_id"@),
                last_fault: low_half(param_u32_or_zero(p, "last_fault"@)),
                fault_detail: param_u32_or_zero(p, "fault_detail"@),
                retired_through_segment_id: param_u32_or_zero(p, "retired_through_segment_id"@),
            },
        )
    } else if name == "kalico_trace"@ {
        RuntimeEventView::Trace(
            TraceView {
                count: param_u32_or_zero(p, "count"@),
                data: match param_bytes(p, "data"@) {
                    Some(b) => b,
                    None => Seq::empty(),
                },
                flags: 0,
            },
        )
    } else if name == "kalico_endstop_tripped"@ {
        RuntimeEventView::EndstopTripped(tripped_of(p))
    } else {
        RuntimeEventView::UnknownOutput {
            format: match param_str(p, "#format"@) {
                Some(s) => s,
                None => name,
            },
            msg: match param_str(p, "#msg"@) {
                Some(s) => s,
                None => Seq::empty(),
            },
        }
    }
}

/// Reads an endstop event.
fn lift_tripped(params: &MessageParams) -> (r: EndstopTrippedEvent)
    ensures
        r@ == tripped_of(params@),
{
    let fmt_version: u8 = to_byte(params.get_u32("fmt_version"));
    let stepper_count: u8 = to_byte(params.get_u32("stepper_count"));
    match decode_trip_event(params) {
        Ok(t) => EndstopTrippedEvent {
            arm_id: t.arm_id,
            trip_clock: t.trip_clock,
            trip_source_idx: t.trip_source_idx,
            fmt_version,
            stepper_count,
            steppers: t.steppers,
        },
        Err(_) => EndstopTrippedEvent {
            arm_id: params.get_u32("arm_id"),
            trip_clock: join_clock(
                params.get_u32("trip_clock_lo"),
                params.get_u32("trip_clock_hi"),
            ),
            trip_source_idx: to_byte(params.get_u32("trip_source_idx")),
            fmt_version,
            stepper_count,
            steppers: Vec::new(),
        },
    }
}

impl RuntimeEvent {
    /// The event that an output is.
    pub fn lift(name: &str, params: MessageParams) -> (r: Self)
        ensures
            r@ == lifted(name@, params@),
    {
        if same_text(name, "kalico_credit_freed") {
            return RuntimeEvent::CreditFreed(
                CreditFreedEvent {
                    retired_through_segment_id: params.get_u32("retired_through_segment_id"),
                    free_slots: to_byte(params.get_u32("free_slots")),
                },
            );
        }
        if same_text(name, "kalico_fault") {
            return RuntimeEvent::Fault(
                FaultEvent {
                    fault_code: to_half(params.get_u32("fault_code")),
                    fault_detail: params.get_u32("fault_detail"),
                    segment_id: params.get_u32("segment_id"),
                    synthesized: false,
                },
            );
        }
        if same_text(name, "kalico_status_v6") {
            return RuntimeEvent::Status(
                StatusEvent {
                    engine_status: to_byte(params.get_u32("engine_status")),
                    queue_depth: to_byte(params.get_u32("queue_depth")),
                    current_segment_id: params.get_u32("current_segment_id"),
                    last_fault: to_half(params.get_u32("last_fault")),
                    fault_detail: params.get_u32("fault_detail"),
                    retired_through_segment_id: params.get_u32("retired_through_segment_id"),
                },
            );
        }
        if same_text(name, "kalico_trace") {
            let data: Vec<u8> = match params.get_bytes("data") {
                Some(b) => vstd::slice::slice_to_vec(b.as_slice()),
                None => Vec::new(),
            };
            return RuntimeEvent::Trace(
                TraceEvent { count: params.get_u32("count"), data, flags: 0 },
            );
        }
        if same_text(name, "kalico_endstop_tripped") {
            return RuntimeEvent::EndstopTripped(lift_tripped(&params));
        }
        let msg: String = match params.try_get_str("#msg") {
            Some(s) => copy_text(s),
            None => String::new(),
        };
        let format: String = match params.try_get_str("#format") {
            Some(s) => copy_text(s),
            None => copy_text(name),
        };
        RuntimeEvent::UnknownOutput { format, msg }
    }
}

} // verus!
