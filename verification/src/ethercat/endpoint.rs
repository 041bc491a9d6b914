//! The endpoint without hardware: what it answers to commands, and what it
//! reports on its own.
//!
//! The owner reads commands and hands them in; in each cycle it then runs the
//! torque switch, samples the axis, and asks for the report. It sends the replies in
//! order.

use crate::bytes::{le_value, read_le};
use crate::ethercat::claim::{single_slave_reply, ClaimHandshakeReply, SlaveState, SlaveStatus};
use crate::ethercat::curves::{
    accepted, empty_ring, pieces_of, ring_ok, walked, AxisRing, RingView, WalkStep,
    AXIS_RING_CAPACITY, ENGINE_STATE_FAULT, FAULT_REG_NONE, NUM_AXES, PIECE_ENTRY_SIZE,
};
use crate::ethercat::torque::{
    after_ladder, after_ramp, commanded, gate_ok, tick_of, CommandAction, GateView, TickAction,
    TorqueGate, TorqueState, ERR_ENABLE_FAILED,
};
use crate::ethercat::wire::{Command, SetTorque};
use vstd::prelude::*;

verus! {

/// Not every piece found room.
pub const ERR_RING_FULL: i32 = -309;

/// What the endpoint sends, or that it ends.
#[allow(inconsistent_fields)]
#[derive(Debug)]
pub enum Reply {
    Identify { correlation_id: u32, proto_version: u8 },
    PushPieces { correlation_id: u32, result: i32, arrival_clock: u64, front_start_time: u64 },
    RuntimeCaps { correlation_id: u32, total_piece_memory: u32 },
    Claim { correlation_id: u32, reply: ClaimHandshakeReply },
    SetTorque { correlation_id: u32, result: i32 },
    /// How the ring stands; `fault` is the latched fault, 0 where there is none.
    Heartbeat { engine_state: u8, fault: u32, retired_count: u32 },
    /// The process ends.
    Exit,
}

/// Model of [`Reply`].
#[allow(inconsistent_fields)]
#[verifier::ext_equal]
pub enum ReplyView {
    Identify { correlation_id: u32, proto_version: u8 },
    PushPieces { correlation_id: u32, result: i32, arrival_clock: u64, front_start_time: u64 },
    RuntimeCaps { correlation_id: u32, total_piece_memory: u32 },
    Claim { correlation_id: u32, statuses: Seq<SlaveStatus> },
    SetTorque { correlation_id: u32, result: i32 },
    Heartbeat { engine_state: u8, fault: u32, retired_count: u32 },
    Exit,
}

impl View for Reply {
    type V = ReplyView;

    open spec fn view(&self) -> ReplyView {
        match self {
            Reply::Identify { correlation_id, proto_version } => ReplyView::Identify {
                correlation_id: *correlation_id,
                proto_version: *proto_version,
            },
            Reply::PushPieces { correlation_id, result, arrival_clock, front_start_time } =>
                ReplyView::PushPieces {
                correlation_id: *correlation_id,
                result: *result,
                arrival_clock: *arrival_clock,
                front_start_time: *front_start_time,
            },
            Reply::RuntimeCaps { correlation_id, total_piece_memory } => ReplyView::RuntimeCaps {
                correlation_id: *correlation_id,
                total_piece_memory: *total_piece_memory,
            },
            Reply::Claim { correlation_id, reply } => ReplyView::Claim {
                correlation_id: *correlation_id,
                statuses: reply.slave_statuses@,
            },
            Reply::SetTorque { correlation_id, result } => ReplyView::SetTorque {
                correlation_id: *correlation_id,
                result: *result,
            },
            Reply::Heartbeat { engine_state, fault, retired_count } => ReplyView::Heartbeat {
                engine_state: *engine_state,
                fault: *fault,
                retired_count: *retired_count,
            },
            Reply::Exit => ReplyView::Exit,
        }
    }
}

/// Models of replies.
pub open spec fn reply_views(v: Seq<Reply>) -> Seq<ReplyView> {
    Seq::new(v.len(), |i: int| v[i]@)
}

/// The endpoint without hardware.
#[derive(Debug)]
pub struct Endpoint {
    ring: AxisRing,
    gate: TorqueGate,
    last_sent_retired: u32,
    heartbeat_sent: bool,
    fail_enable: bool,
}

/// Model of [`Endpoint`].
#[verifier::ext_equal]
pub struct EndpointView {
    pub ring: RingView,
    pub gate: GateView,
    /// The count of retired pieces that was reported last.
    pub last_sent_retired: u32,
    /// Whether anything was reported yet.
    pub heartbeat_sent: bool,
    /// Whether the enable ladder is to fail.
    pub fail_enable: bool,
}

impl View for Endpoint {
    type V = EndpointView;

    closed spec fn view(&self) -> EndpointView {
        EndpointView {
            ring: self.ring@,
            gate: self.gate@,
            last_sent_retired: self.last_sent_retired,
            heartbeat_sent: self.heartbeat_sent,
            fail_enable: self.fail_enable,
        }
    }
}

/// What a torque command is answered, and the endpoint after it. Without
/// hardware the ramp and the ladder run at once.
pub open spec fn torque_set(v: EndpointView, cid: u32, msg: SetTorque, now: u64) -> (
    EndpointView,
    Seq<ReplyView>,
) {
    let (action, gate) = commanded(v.gate, msg.value != 0, msg.execute_at_ns, now);
    match action {
        CommandAction::Enable { ramp_first } => {
            let ramped = if ramp_first {
                after_ramp()
            } else {
                gate
            };
            let ok = !v.fail_enable;
            (
                EndpointView { gate: after_ladder(ramped, ok), ..v },
                if ok {
                    seq![ReplyView::SetTorque { correlation_id: cid, result: 0 }]
                } else {
                    seq![
                        ReplyView::SetTorque { correlation_id: cid, result: ERR_ENABLE_FAILED },
                        ReplyView::Exit,
                    ]
                },
            )
        },
        CommandAction::ScheduleDisable => (
            EndpointView { gate, ..v },
            seq![ReplyView::SetTorque { correlation_id: cid, result: 0 }],
        ),
        CommandAction::Reject { code } => (
            EndpointView { gate, ..v },
            seq![ReplyView::SetTorque { correlation_id: cid, result: code }, ReplyView::Exit],
        ),
    }
}

/// Where the first of some pieces starts, where there is one.
pub open spec fn front_start(piece_count: u8, b: Seq<u8>) -> u64 {
    if piece_count > 0 && b.len() >= 8 {
        le_value(b.subrange(0, 8)) as u64
    } else {
        0
    }
}

/// What a command is answered, and the endpoint after it.
pub open spec fn answered(v: EndpointView, cmd: Command, now: u64) -> (
    EndpointView,
    Seq<ReplyView>,
) {
    match cmd {
        Command::Identify { correlation_id, proto_version } => (
            v,
            seq![ReplyView::Identify { correlation_id, proto_version }],
        ),
        Command::PushPieces { correlation_id, msg } => {
            let n = accepted(v.ring, msg.piece_count as int, msg.pieces_bytes@);
            (
                EndpointView {
                    ring: RingView {
                        pieces: v.ring.pieces + pieces_of(n, msg.pieces_bytes@),
                        ..v.ring
                    },
                    ..v
                },
                seq![
                    ReplyView::PushPieces {
                        correlation_id,
                        result: if n == msg.piece_count {
                            0
                        } else {
                            ERR_RING_FULL
                        },
                        arrival_clock: now,
                        front_start_time: front_start(msg.piece_count, msg.pieces_bytes@),
                    },
                ],
            )
        },
        Command::QueryRuntimeCaps { correlation_id } => (
            v,
            seq![ReplyView::RuntimeCaps { correlation_id, total_piece_memory: 8192 }],
        ),
        Command::ClaimHandshake { correlation_id } => (
            v,
            seq![
                ReplyView::Claim {
                    correlation_id,
                    statuses: seq![
                        SlaveStatus { slave_idx: 1, state: SlaveState::Operational, fault_code: 0 },
                    ],
                },
            ],
        ),
        Command::SetTorque { correlation_id, msg } => torque_set(v, correlation_id, msg, now),
        Command::Unknown { .. } => (v, Seq::empty()),
    }
}

/// The fault that a code alone makes: its low 16 bits.
pub open spec fn code_fault(code: i32) -> u32 {
    (code as int % 0x1_0000) as u32
}

/// What the switch does in a cycle: a fault of it goes out with its code, and
/// ends the process.
pub open spec fn gate_ticked(v: EndpointView, now: u64) -> (EndpointView, Seq<ReplyView>) {
    match tick_of(v.gate, now, v.ring.pieces.len() == 0) {
        TickAction::Nothing => (v, Seq::empty()),
        TickAction::ExecuteDisable => (EndpointView { gate: after_ramp(), ..v }, Seq::empty()),
        TickAction::Fault { code } => (
            v,
            seq![
                ReplyView::Heartbeat {
                    engine_state: ENGINE_STATE_FAULT,
                    fault: code_fault(code),
                    retired_count: v.ring.retired,
                },
                ReplyView::Exit,
            ],
        ),
    }
}

/// What is reported in a cycle: a fault, with what the register held; or how the ring stands, where that was
/// not reported yet or more pieces are over.
pub open spec fn reported(v: EndpointView) -> (EndpointView, Seq<ReplyView>) {
    let told = EndpointView {
        ring: RingView { fault: FAULT_REG_NONE, ..v.ring },
        last_sent_retired: v.ring.retired,
        heartbeat_sent: true,
        ..v
    };
    if v.ring.fault != FAULT_REG_NONE {
        (
            told,
            seq![
                ReplyView::Heartbeat {
                    engine_state: ENGINE_STATE_FAULT,
                    fault: v.ring.fault,
                    retired_count: v.ring.retired,
                },
            ],
        )
    } else if !v.heartbeat_sent || v.ring.retired != v.last_sent_retired {
        (
            told,
            seq![
                ReplyView::Heartbeat {
                    engine_state: if v.ring.pieces.len() == 0 {
                        0
                    } else {
                        1
                    },
                    fault: FAULT_REG_NONE,
                    retired_count: v.ring.retired,
                },
            ],
        )
    } else {
        (v, Seq::empty())
    }
}

/// A list of one reply.
fn one(r: Reply) -> (v: Vec<Reply>)
    ensures
        reply_views(v@) == seq![r@],
{
    let mut v: Vec<Reply> = Vec::new();
    v.push(r);
    proof {
        assert(reply_views(v@) =~= seq![r@]);
    }
    v
}

/// A list of one reply, after which the process ends.
fn last(r: Reply) -> (v: Vec<Reply>)
    ensures
        reply_views(v@) == seq![r@, ReplyView::Exit],
{
    let mut v: Vec<Reply> = Vec::new();
    v.push(r);
    v.push(Reply::Exit);
    proof {
        assert(reply_views(v@) =~= seq![r@, ReplyView::Exit]);
    }
    v
}

/// A list of no reply.
fn nothing() -> (v: Vec<Reply>)
    ensures
        reply_views(v@) == Seq::<ReplyView>::empty(),
{
    let v: Vec<Reply> = Vec::new();
    proof {
        assert(reply_views(v@) =~= Seq::<ReplyView>::empty());
    }
    v
}

impl Endpoint {
    /// What every endpoint satisfies.
    pub open spec fn wf(&self) -> bool {
        ring_ok(self@.ring) && gate_ok(self@.gate)
    }

    /// An endpoint that has done nothing. `fail_enable`: its enable ladder is
    /// to fail.
    pub fn new(fail_enable: bool) -> (e: Self)
        ensures
            e.wf(),
            e@ == (EndpointView {
                ring: empty_ring(),
                gate: GateView { state: TorqueState::Parked, pending: None },
                last_sent_retired: 0,
                heartbeat_sent: false,
                fail_enable,
            }),
    {
        Endpoint {
            ring: AxisRing::new(),
            gate: TorqueGate::new(),
            last_sent_retired: 0,
            heartbeat_sent: false,
            fail_enable,
        }
    }

    /// Takes a torque command in.
    fn set_torque(&mut self, cid: u32, msg: SetTorque, now: u64) -> (r: Vec<Reply>)
        requires
            old(self).wf(),
        ensures
            final(self).wf(),
            (final(self)@, reply_views(r@)) == torque_set(old(self)@, cid, msg, now),
    {
        match self.gate.on_set_torque(msg.value != 0, msg.execute_at_ns, now) {
            CommandAction::Enable { ramp_first } => {
                if ramp_first {
                    self.gate.disable_finished();
                }
                let ok: bool = !self.fail_enable;
                self.gate.enable_finished(ok);
                if ok {
                    one(Reply::SetTorque { correlation_id: cid, result: 0 })
                } else {
                    last(Reply::SetTorque { correlation_id: cid, result: ERR_ENABLE_FAILED })
                }
            },
            CommandAction::ScheduleDisable => one(
                Reply::SetTorque { correlation_id: cid, result: 0 },
            ),
            CommandAction::Reject { code } => last(
                Reply::SetTorque { correlation_id: cid, result: code },
            ),
        }
    }

    /// Takes a command in.
    pub fn handle_command(&mut self, cmd: Command, now: u64) -> (r: Vec<Reply>)
        requires
            old(self).wf(),
        ensures
            final(self).wf(),
            (final(self)@, reply_views(r@)) == answered(old(self)@, cmd, now),
    {
        match cmd {
            Command::Identify { correlation_id, proto_version } => one(
                Reply::Identify { correlation_id, proto_version },
            ),
            Command::PushPieces { correlation_id, msg } => {
                let bytes: &[u8] = msg.pieces_bytes.as_slice();
                let front_start_time: u64 = if msg.piece_count > 0 && bytes.len() >= 8 {
                    read_le(bytes, 0, 8)
                } else {
                    0
                };
                let pushed: u8 = self.ring.push_from_bytes(msg.piece_count, bytes);
                let result: i32 = if pushed == msg.piece_count {
                    0
                } else {
                    ERR_RING_FULL
                };
                one(
                    Reply::PushPieces {
                        correlation_id,
                        result,
                        arrival_clock: now,
                        front_start_time,
                    },
                )
            },
            Command::QueryRuntimeCaps { correlation_id } => {
                let total: u32 = (AXIS_RING_CAPACITY * NUM_AXES * PIECE_ENTRY_SIZE) as u32;
                one(Reply::RuntimeCaps { correlation_id, total_piece_memory: total })
            },
            Command::ClaimHandshake { correlation_id } => one(
                Reply::Claim {
                    correlation_id,
                    reply: single_slave_reply(SlaveState::Operational, 0),
                },
            ),
            Command::SetTorque { correlation_id, msg } => self.set_torque(correlation_id, msg, now),
            Command::Unknown { .. } => nothing(),
        }
    }

    /// Runs the switch for a cycle.
    pub fn gate_tick(&mut self, now: u64) -> (r: Vec<Reply>)
        requires
            old(self).wf(),
        ensures
            final(self).wf(),
            (final(self)@, reply_views(r@)) == gate_ticked(old(self)@, now),
    {
        let empty: bool = self.ring.is_empty();
        match self.gate.on_tick(now, empty) {
            TickAction::Nothing => nothing(),
            TickAction::ExecuteDisable => {
                self.gate.disable_finished();
                nothing()
            },
            TickAction::Fault { code } => {
                let retired_count: u32 = self.ring.retired_count();
                let fault: u32 = ((code as i64 + 0x8000_0000) % 0x1_0000) as u32;
                last(
                    Reply::Heartbeat {
                        engine_state: ENGINE_STATE_FAULT,
                        fault,
                        retired_count,
                    },
                )
            },
        }
    }

    /// Samples the axis.
    pub fn sample(&mut self, now: u64) -> (s: WalkStep)
        requires
            old(self).wf(),
        ensures
            final(self).wf(),
            s == walked(old(self)@.ring, now).0,
            final(self)@ == (EndpointView {
                ring: walked(old(self)@.ring, now).1,
                ..old(self)@
            }),
    {
        self.ring.sample(now)
    }

    /// The first piece is taken up; it ends at `end`. Without such a piece
    /// nothing happens.
    pub fn take_up(&mut self, end: u64)
        requires
            old(self).wf(),
        ensures
            final(self).wf(),
            final(self)@ == if old(self)@.ring.pieces.len() > 0 && old(self)@.ring.armed is None {
                EndpointView {
                    ring: RingView { armed: Some(end), ..old(self)@.ring },
                    ..old(self)@
                }
            } else {
                old(self)@
            },
    {
        if !self.ring.is_empty() && !self.ring.is_armed() {
            self.ring.take_up(end);
        }
    }

    /// What is reported in a cycle.
    pub fn report(&mut self) -> (r: Vec<Reply>)
        requires
            old(self).wf(),
        ensures
            final(self).wf(),
            (final(self)@, reply_views(r@)) == reported(old(self)@),
    {
        let retired_count: u32 = self.ring.retired_count();
        if let Some(fault) = self.ring.take_fault() {
            self.last_sent_retired = retired_count;
            self.heartbeat_sent = true;
            return one(
                Reply::Heartbeat { engine_state: ENGINE_STATE_FAULT, fault, retired_count },
            );
        }
        if !self.heartbeat_sent || retired_count != self.last_sent_retired {
            let engine_state: u8 = if self.ring.is_empty() {
                0
            } else {
                1
            };
            self.last_sent_retired = retired_count;
            self.heartbeat_sent = true;
            return one(Reply::Heartbeat { engine_state, fault: FAULT_REG_NONE, retired_count });
        }
        nothing()
    }
}

/// Every retirement is reported: after a cycle the count that was reported
/// last is the count of the ring, and the next report says nothing until a
/// piece retires or is late.
pub proof fn law_retirements_reported(v: EndpointView)
    ensures
        ({
            let w = reported(v).0;
            &&& w.heartbeat_sent
            &&& w.last_sent_retired == v.ring.retired
            &&& w.ring.retired == v.ring.retired
            &&& reported(w).1.len() == 0
        }),
{
}

/// A fault that is latched reaches the host in the next report, whole, and the
/// register is clear after it; without one a report names no fault.
pub proof fn law_fault_reported(v: EndpointView)
    ensures
        v.ring.fault != FAULT_REG_NONE ==> reported(v).1 == seq![
            ReplyView::Heartbeat {
                engine_state: ENGINE_STATE_FAULT,
                fault: v.ring.fault,
                retired_count: v.ring.retired,
            },
        ],
        v.ring.fault == FAULT_REG_NONE && reported(v).1.len() > 0 ==> (reported(v).1[0] matches
            ReplyView::Heartbeat { engine_state, fault, .. } && fault == FAULT_REG_NONE
            && engine_state != ENGINE_STATE_FAULT),
        reported(v).0.ring.fault == FAULT_REG_NONE,
{
}

/// A torque command that is refused ends the process, and leaves the switch as
/// it was.
pub proof fn law_refusal_ends(v: EndpointView, cid: u32, msg: SetTorque, now: u64)
    requires
        commanded(v.gate, msg.value != 0, msg.execute_at_ns, now).0 is Reject,
    ensures
        torque_set(v, cid, msg, now).1.last() == ReplyView::Exit,
        torque_set(v, cid, msg, now).0 == v,
{
}

} // verus!
