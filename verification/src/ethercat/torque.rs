//! The torque switch: when torque is on, and when it is to go off.
//!
//! The switch only decides. Its owner runs the enable ladder and the disable
//! ramp, and reports how they ended.

use vstd::prelude::*;

verus! {

/// The enable ladder failed.
pub const ERR_ENABLE_FAILED: i32 = -310;

/// A disable was asked for at a time that has passed.
pub const ERR_DISABLE_IN_PAST: i32 = -311;

/// The command does not fit the state of the switch.
pub const ERR_BAD_TORQUE_STATE: i32 = -312;

/// There are pieces to run while no torque is commanded.
pub const ERR_PIECES_WHILE_PARKED: i32 = -313;

/// Whether torque is commanded.
#[derive(Debug, Clone, Copy, PartialEq, Eq, Structural)]
pub enum TorqueState {
    Parked,
    Enabled,
}

/// What the owner does on a torque command.
#[derive(Debug, PartialEq, Eq, Structural)]
pub enum CommandAction {
    /// Run the enable ladder and report its outcome; before it, where a
    /// disable was pending, run the disable ramp and report that.
    Enable { ramp_first: bool },
    /// The disable is accepted and runs when it is due.
    ScheduleDisable,
    /// Answer with the code and halt.
    Reject { code: i32 },
}

/// What the owner does on a tick.
#[allow(inconsistent_fields)]
#[derive(Debug, PartialEq, Eq, Structural)]
pub enum TickAction {
    Nothing,
    /// Run the disable ramp and report it.
    ExecuteDisable,
    /// Report the code and halt.
    Fault { code: i32 },
}

/// The torque switch.
#[derive(Debug)]
pub struct TorqueGate {
    state: TorqueState,
    pending_disable_at: Option<u64>,
}

/// Model of [`TorqueGate`].
pub struct GateView {
    pub state: TorqueState,
    /// When the disable that was accepted is due.
    pub pending: Option<u64>,
}

impl View for TorqueGate {
    type V = GateView;

    closed spec fn view(&self) -> GateView {
        GateView { state: self.state, pending: self.pending_disable_at }
    }
}

/// What a torque command is answered, and the switch after it.
pub open spec fn commanded(g: GateView, value: bool, execute_at_ns: u64, now_ns: u64) -> (
    CommandAction,
    GateView,
) {
    if value {
        if g.state == TorqueState::Enabled && g.pending is None {
            (CommandAction::Reject { code: ERR_BAD_TORQUE_STATE }, g)
        } else {
            (
                CommandAction::Enable { ramp_first: g.pending is Some },
                GateView { pending: None, ..g },
            )
        }
    } else if g.state != TorqueState::Enabled || g.pending is Some {
        (CommandAction::Reject { code: ERR_BAD_TORQUE_STATE }, g)
    } else if execute_at_ns <= now_ns {
        (CommandAction::Reject { code: ERR_DISABLE_IN_PAST }, g)
    } else {
        (CommandAction::ScheduleDisable, GateView { pending: Some(execute_at_ns), ..g })
    }
}

/// What a tick asks for: a disable that is due runs, unless there are pieces
/// left; and there are none while the switch is parked.
pub open spec fn tick_of(g: GateView, now_ns: u64, ring_empty: bool) -> TickAction {
    let due = match g.pending {
        Some(at) => now_ns >= at,
        None => false,
    };
    if !ring_empty && (due || g.state == TorqueState::Parked) {
        TickAction::Fault { code: ERR_PIECES_WHILE_PARKED }
    } else if due {
        TickAction::ExecuteDisable
    } else {
        TickAction::Nothing
    }
}

/// The switch after the enable ladder.
pub open spec fn after_ladder(g: GateView, ok: bool) -> GateView {
    if ok {
        GateView { state: TorqueState::Enabled, ..g }
    } else {
        g
    }
}

/// The switch after the disable ramp.
pub open spec fn after_ramp() -> GateView {
    GateView { state: TorqueState::Parked, pending: None }
}

impl TorqueGate {
    /// A parked switch.
    #[must_use]
    pub fn new() -> (g: Self)
        ensures
            g@ == (GateView { state: TorqueState::Parked, pending: None }),
    {
        TorqueGate { state: TorqueState::Parked, pending_disable_at: None }
    }

    /// Whether torque is commanded.
    #[must_use]
    pub fn state(&self) -> (s: TorqueState)
        ensures
            s == self@.state,
    {
        self.state
    }

    /// Takes a torque command in.
    pub fn on_set_torque(&mut self, value: bool, execute_at_ns: u64, now_ns: u64) -> (a:
        CommandAction)
        ensures
            (a, final(self)@) == commanded(old(self)@, value, execute_at_ns, now_ns),
    {
        if value {
            if self.state == TorqueState::Enabled && self.pending_disable_at.is_none() {
                return CommandAction::Reject { code: ERR_BAD_TORQUE_STATE };
            }
            let ramp_first: bool = self.pending_disable_at.is_some();
            self.pending_disable_at = None;
            CommandAction::Enable { ramp_first }
        } else {
            if self.state != TorqueState::Enabled || self.pending_disable_at.is_some() {
                return CommandAction::Reject { code: ERR_BAD_TORQUE_STATE };
            }
            if execute_at_ns <= now_ns {
                return CommandAction::Reject { code: ERR_DISABLE_IN_PAST };
            }
            self.pending_disable_at = Some(execute_at_ns);
            CommandAction::ScheduleDisable
        }
    }

    /// The enable ladder has ended.
    pub fn enable_finished(&mut self, ok: bool)
        ensures
            final(self)@ == after_ladder(old(self)@, ok),
    {
        if ok {
            self.state = TorqueState::Enabled;
        }
    }

    /// The disable ramp has run.
    pub fn disable_finished(&mut self)
        ensures
            final(self)@ == after_ramp(),
    {
        self.state = TorqueState::Parked;
        self.pending_disable_at = None;
    }

    /// What a tick asks for.
    pub fn on_tick(&mut self, now_ns: u64, ring_empty: bool) -> (a: TickAction)
        ensures
            a == tick_of(old(self)@, now_ns, ring_empty),
            final(self)@ == old(self)@,
    {
        match self.pending_disable_at {
            Some(at) => {
                if now_ns >= at {
                    if !ring_empty {
                        return TickAction::Fault { code: ERR_PIECES_WHILE_PARKED };
                    }
                    return TickAction::ExecuteDisable;
                }
            },
            None => {},
        }
        if self.state == TorqueState::Parked && !ring_empty {
            return TickAction::Fault { code: ERR_PIECES_WHILE_PARKED };
        }
        TickAction::Nothing
    }
}

impl Default for TorqueGate {
    fn default() -> (g: Self)
        ensures
            g@ == (GateView { state: TorqueState::Parked, pending: None }),
    {
        TorqueGate::new()
    }
}

/// A disable is pending only while torque is on.
pub open spec fn gate_ok(g: GateView) -> bool {
    g.pending is Some ==> g.state == TorqueState::Enabled
}

/// A disable is pending only while torque is on: a fresh switch, every command,
/// the ladder and the ramp keep it so.
pub proof fn law_pending_only_while_enabled(
    g: GateView,
    value: bool,
    execute_at_ns: u64,
    now_ns: u64,
    ok: bool,
)
    requires
        gate_ok(g),
    ensures
        gate_ok(after_ramp()),
        gate_ok(commanded(g, value, execute_at_ns, now_ns).1),
        gate_ok(after_ladder(g, ok)),
{
}

/// A disable that was accepted does not run before its time, runs at its time
/// when the pieces have run out, and does not run again after it.
pub proof fn law_disable_runs_once_at_its_time(
    g: GateView,
    execute_at_ns: u64,
    accepted_ns: u64,
    now_ns: u64,
)
    requires
        commanded(g, false, execute_at_ns, accepted_ns).0 == CommandAction::ScheduleDisable,
    ensures
        ({
            let w = commanded(g, false, execute_at_ns, accepted_ns).1;
            &&& now_ns < execute_at_ns ==> tick_of(w, now_ns, true) == TickAction::Nothing
            &&& now_ns >= execute_at_ns ==> tick_of(w, now_ns, true)
                == TickAction::ExecuteDisable
            &&& tick_of(after_ramp(), now_ns, true) == TickAction::Nothing
        }),
{
}

/// A new enable takes a pending disable back: it never fires, and the ramp
/// runs before the ladder.
pub proof fn law_enable_takes_disable_back(g: GateView, execute_at_ns: u64, now_ns: u64, t: u64)
    requires
        g.pending is Some,
    ensures
        commanded(g, true, execute_at_ns, now_ns).0 == (CommandAction::Enable {
            ramp_first: true,
        }),
        tick_of(after_ladder(after_ramp(), true), t, true) == TickAction::Nothing,
{
}

/// No piece runs without torque: with pieces in the ring a tick passes only
/// while torque is on and no disable is due.
pub proof fn law_no_motion_without_torque(g: GateView, now_ns: u64)
    requires
        gate_ok(g),
    ensures
        !(tick_of(g, now_ns, false) is Fault) ==> g.state == TorqueState::Enabled,
{
}

} // verus!
