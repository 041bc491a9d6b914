//! Faults: reading them, and holding the first.

use crate::host_io::runtime_events::FaultEvent as RuntimeFaultEvent;
use crate::host_io::runtime_events::{low_half, to_half};
use crate::transport::{
    param_u32, param_u32_or_zero, refused, MessageParams, ParamsView, SubscribeError,
};
use vstd::prelude::*;

verus! {

/// A fault as the firmware reports it.
#[derive(Debug, Clone, Copy, PartialEq, Eq, Structural)]
pub struct FaultEvent {
    pub fault_code: u16,
    pub fault_detail: u32,
    pub segment_id: u32,
}

/// Whether a message has all fields of a fault.
pub open spec fn has_fault_fields(p: ParamsView) -> bool {
    p.contains_key("fault_code"@) && p.contains_key("fault_detail"@) && p.contains_key(
        "segment_id"@,
    )
}

/// Reads a fault; none where one of its fields is missing. A field that holds
/// no number counts as zero.
pub fn parse_fault_event(params: &MessageParams) -> (r: Option<FaultEvent>)
    ensures
        r == if has_fault_fields(params@) {
            Some(
                FaultEvent {
                    fault_code: low_half(param_u32_or_zero(params@, "fault_code"@)),
                    fault_detail: param_u32_or_zero(params@, "fault_detail"@),
                    segment_id: param_u32_or_zero(params@, "segment_id"@),
                },
            )
        } else {
            None
        },
        r is None <==> !(params@.contains_key("fault_code"@) && params@.contains_key(
            "fault_detail"@,
        ) && params@.contains_key("segment_id"@)),
        r matches Some(e) ==> {
            &&& param_u32(params@, "fault_code"@) matches Some(c) ==> c % 0x1_0000 == e.fault_code
            &&& param_u32(params@, "fault_detail"@) matches Some(d) ==> d == e.fault_detail
            &&& param_u32(params@, "segment_id"@) matches Some(i) ==> i == e.segment_id
        },
{
    if !(params.has("fault_code") && params.has("fault_detail") && params.has("segment_id")) {
        return None;
    }
    Some(
        FaultEvent {
            fault_code: to_half(params.get_u32("fault_code")),
            fault_detail: params.get_u32("fault_detail"),
            segment_id: params.get_u32("segment_id"),
        },
    )
}

/// Holds the first fault. A real fault takes the place of a synthesized one.
#[derive(Debug)]
pub struct FaultLatch {
    pub cell: Option<RuntimeFaultEvent>,
    pub subscribed: bool,
}

/// Whether a fault takes the cell.
pub open spec fn latches(cell: Option<RuntimeFaultEvent>, e: RuntimeFaultEvent) -> bool {
    match cell {
        None => true,
        Some(c) => c.synthesized && !e.synthesized,
    }
}

/// The cell after a fault.
pub open spec fn latched(cell: Option<RuntimeFaultEvent>, e: RuntimeFaultEvent) -> Option<
    RuntimeFaultEvent,
> {
    if latches(cell, e) {
        Some(e)
    } else {
        cell
    }
}

impl FaultLatch {
    /// No fault, no subscriber.
    pub fn new() -> (l: Self)
        ensures
            l.cell is None,
            !l.subscribed,
    {
        FaultLatch { cell: None, subscribed: false }
    }

    /// Takes a fault in. Gives it back if it is to be sent to the subscriber.
    pub fn dispatch(&mut self, event: RuntimeFaultEvent) -> (r: Option<RuntimeFaultEvent>)
        ensures
            final(self).cell == latched(old(self).cell, event),
            final(self).subscribed == old(self).subscribed,
            r == (if latches(old(self).cell, event) && old(self).subscribed {
                Some(event)
            } else {
                None
            }),
    {
        let take: bool = match &self.cell {
            None => true,
            Some(c) => c.synthesized && !event.synthesized,
        };
        if take {
            self.cell = Some(event);
            if self.subscribed {
                return Some(event);
            }
        }
        None
    }

    /// Attaches the subscriber. Gives back the fault, if there is one, that is
    /// to be sent to it at once.
    pub fn subscribe(&mut self) -> (r: Result<Option<RuntimeFaultEvent>, SubscribeError>)
        ensures
            final(self).subscribed,
            final(self).cell == old(self).cell,
            match r {
                Ok(replay) => !old(self).subscribed && replay == old(self).cell,
                Err(e) => old(self).subscribed && refused(e, "fault"@),
            },
    {
        if self.subscribed {
            return Err(SubscribeError::AlreadySubscribed { channel: "fault" });
        }
        self.subscribed = true;
        Ok(self.cell)
    }
}

impl Default for FaultLatch {
    fn default() -> (l: Self)
        ensures
            l.cell is None,
            !l.subscribed,
    {
        FaultLatch::new()
    }
}

/// A real fault, once held, is never replaced; and a real fault is always
/// held in place of a synthesized one or of none.
pub proof fn law_first_real_fault_stays(
    cell: Option<RuntimeFaultEvent>,
    reported: RuntimeFaultEvent,
    later: RuntimeFaultEvent,
)
    requires
        !reported.synthesized,
        latches(cell, reported),
    ensures
        latched(cell, reported) == Some(reported),
        latched(latched(cell, reported), later) == Some(reported),
{
}

} // verus!
