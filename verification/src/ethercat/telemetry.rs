//! What the drive reports in each cycle.

use vstd::prelude::*;

verus! {

/// The drive's report of one cycle.
#[derive(Debug, Clone, Copy, PartialEq, Eq, Structural)]
pub struct EcTelemetry {
    pub error_code: u16,
    pub statusword: u16,
    pub position_actual: i32,
    pub torque_actual: i16,
    pub following_error: i32,
    pub position_demand: i32,
    pub target_position: i32,
}

impl Default for EcTelemetry {
    fn default() -> (t: Self)
        ensures
            t == (EcTelemetry {
                error_code: 0,
                statusword: 0,
                position_actual: 0,
                torque_actual: 0,
                following_error: 0,
                position_demand: 0,
                target_position: 0,
            }),
    {
        EcTelemetry {
            error_code: 0,
            statusword: 0,
            position_actual: 0,
            torque_actual: 0,
            following_error: 0,
            position_demand: 0,
            target_position: 0,
        }
    }
}

} // verus!
