//! What the endpoint promises as a whole.

use crate::bytes::{law_le_round_trip, le_bytes, le_limit, le_value, lemma_limits};
use crate::ethercat::capture::{
    after_push, after_stop, lemma_le_bytes_wrapped, plain_char, plain_text, record_bytes, refusal, settled, CaptureRecord,
    CaptureView, Handed,
};
use crate::ethercat::claim::{
    bringup_failure, first_claim, flag_at, without_prefix, SlaveState,
};
use crate::ethercat::curves::{
    late_micros, piece_of, pieces_of, ring_ok, walked, PieceEntry, RingView, WalkStep,
};
use crate::ethercat::endpoint::{
    answered, gate_ticked, reported, torque_set, EndpointView, ReplyView,
};
use crate::ethercat::frames::{message_for, ReplyBodyView};
use crate::ethercat::torque::{gate_ok, TorqueState};
use crate::ethercat::wire::{
    command_of, Command, CommandKind, DecodeCmdError, MessageHeader, PushPieces, Received,
    SetTorque,
};
use crate::text::{decimal, decimal_int};
use crate::text_laws::law_decimal_round_trip;
use vstd::prelude::*;

verus! {

/// The signed number of which `n` bytes hold the remainder.
pub open spec fn signed(value: int, n: nat) -> int {
    if 2 * value < le_limit(n) {
        value
    } else {
        value - le_limit(n)
    }
}

proof fn lemma_signed(v: int, n: nat)
    requires
        n == 2 || n == 4,
        -le_limit(n) <= 2 * v < le_limit(n),
    ensures
        le_bytes(v, n).len() == n,
        signed(le_value(le_bytes(v, n)), n) == v,
{
    lemma_limits();
    if v < 0 {
        lemma_le_bytes_wrapped(v + le_limit(n), v, n);
        law_le_round_trip(v + le_limit(n), n);
    } else {
        law_le_round_trip(v, n);
    }
}

/// Each value of a record stands at its own place, which the header of the file
/// names, and is read from there.
pub proof fn law_record_layout(r: CaptureRecord)
    ensures
        ({
            let b = record_bytes(r);
            &&& b.len() == 31
            &&& le_value(b.subrange(0, 8)) == r.cycle_index
            &&& b[8] == r.flags
            &&& signed(le_value(b.subrange(9, 13)), 4) == r.drive.target_counts
            &&& signed(le_value(b.subrange(13, 17)), 4) == r.drive.position_demand
            &&& signed(le_value(b.subrange(17, 21)), 4) == r.drive.position_actual
            &&& signed(le_value(b.subrange(21, 25)), 4) == r.drive.following_error
            &&& signed(le_value(b.subrange(25, 27)), 2) == r.drive.torque_actual
            &&& le_value(b.subrange(27, 29)) == r.drive.statusword
            &&& le_value(b.subrange(29, 31)) == r.drive.error_code
        }),
{
    lemma_limits();
    let d = r.drive;
    law_le_round_trip(r.cycle_index as int, 8);
    lemma_signed(d.target_counts as int, 4);
    lemma_signed(d.position_demand as int, 4);
    lemma_signed(d.position_actual as int, 4);
    lemma_signed(d.following_error as int, 4);
    lemma_signed(d.torque_actual as int, 2);
    law_le_round_trip(d.statusword as int, 2);
    law_le_round_trip(d.error_code as int, 2);
    let b = record_bytes(r);
    assert(b.subrange(0, 8) =~= le_bytes(r.cycle_index as int, 8));
    assert(b.subrange(9, 13) =~= le_bytes(d.target_counts as int, 4));
    assert(b.subrange(13, 17) =~= le_bytes(d.position_demand as int, 4));
    assert(b.subrange(17, 21) =~= le_bytes(d.position_actual as int, 4));
    assert(b.subrange(21, 25) =~= le_bytes(d.following_error as int, 4));
    assert(b.subrange(25, 27) =~= le_bytes(d.torque_actual as int, 2));
    assert(b.subrange(27, 29) =~= le_bytes(d.statusword as int, 2));
    assert(b.subrange(29, 31) =~= le_bytes(d.error_code as int, 2));
}

/// Whether a text is printable ASCII without quotes and backslashes.
pub open spec fn is_printable(s: Seq<char>) -> bool {
    forall|i: int|
        0 <= i < s.len() ==> 0x20 <= (#[trigger] s[i]) as int <= 0x7E && s[i] as int != 0x22
            && s[i] as int != 0x5C
}

proof fn lemma_printable(s: Seq<char>)
    ensures
        plain_text(s) <==> is_printable(s),
{
    if plain_text(s) {
        assert forall|i: int| 0 <= i < s.len() implies 0x20 <= (#[trigger] s[i]) as int <= 0x7E
            && s[i] as int != 0x22 && s[i] as int != 0x5C by {
            assert(plain_char(s[i]));
        }
    }
    if is_printable(s) {
        assert forall|i: int| 0 <= i < s.len() implies plain_char(#[trigger] s[i]) by {
            let n = s[i] as int;
            assert(0x20 <= n <= 0x7E && n != 0x22 && n != 0x5C);
        }
    }
}

/// A capture starts where none is running and its texts are printable ASCII
/// without quotes and backslashes.
pub proof fn law_capture_starts(v: CaptureView, name: Seq<char>, utc: Seq<char>)
    ensures
        refusal(v, name, utc) == -320 <==> v.active,
        refusal(v, name, utc) == 0 <==> !v.active && is_printable(name) && is_printable(utc),
        refusal(v, name, utc) == 0 || refusal(v, name, utc) == -320 || refusal(v, name, utc)
            == -324,
{
    lemma_printable(name);
    lemma_printable(utc);
}

/// A capture that loses a record ends with the cycle of that record and the
/// reason: -323 where too many records waited, -322 where the writer was gone
/// or the file could not be renamed. The samples are those that were written.
pub proof fn law_loss_is_told(v: CaptureView, cycle: u64, n: u64, renamed: bool)
    requires
        v.active,
        v.failure is None,
    ensures
        ({
            let full = settled(after_push(v, cycle, Handed::Full).failure, Ok(n), renamed);
            let gone = settled(after_push(v, cycle, Handed::Gone).failure, Err(n), renamed);
            let fine = settled(after_push(v, cycle, Handed::Taken).failure, Ok(n), renamed);
            &&& full.overflow_cycle == Some(cycle) && full.samples == n
            &&& full.result == if renamed {
                -323
            } else {
                -322
            }
            &&& gone.overflow_cycle == Some(cycle) && gone.samples == n && gone.result == -322
            &&& fine.overflow_cycle is None && fine.samples == n && fine.result == 0
            &&& settled(None, Err(n), renamed).result == -322
        }),
{
}

/// The claim that counts is the first one, wherever it stands.
pub proof fn law_first_claim_counts(cmds: Seq<Command>, i: int)
    requires
        0 <= i <= cmds.len(),
        forall|j: int| 0 <= j < i ==> !((#[trigger] cmds[j]) is ClaimHandshake),
    ensures
        i == cmds.len() ==> first_claim(cmds) is None,
        i < cmds.len() ==> (cmds[i] matches Command::ClaimHandshake { correlation_id }
            ==> first_claim(cmds) == Some(correlation_id)),
    decreases i,
{
    if i > 0 {
        assert(!(cmds[0] is ClaimHandshake));
        assert forall|j: int| 0 <= j < i - 1 implies !((#[trigger] cmds.skip(1)[j]) is ClaimHandshake) by {
            assert(cmds.skip(1)[j] == cmds[j + 1]);
        }
        law_first_claim_counts(cmds.skip(1), i - 1);
        if i < cmds.len() {
            assert(cmds.skip(1)[i - 1] == cmds[i]);
        }
    }
}

proof fn lemma_flag_place(args: Seq<Seq<char>>, i: int)
    requires
        0 <= i <= args.len(),
        forall|j: int| 0 <= j < i ==> #[trigger] args[j] != "--fail-bringup"@,
        i < args.len() ==> args[i] == "--fail-bringup"@,
    ensures
        flag_at(args) == if i < args.len() {
            Some(i)
        } else {
            None
        },
    decreases i,
{
    if i > 0 {
        assert(args[0] != "--fail-bringup"@);
        assert forall|j: int| 0 <= j < i - 1 implies #[trigger] args.skip(1)[j]
            != "--fail-bringup"@ by {
            assert(args.skip(1)[j] == args[j + 1]);
        }
        lemma_flag_place(args.skip(1), i - 1);
    }
}

/// The drive whose bring-up is to fail is the number that stands in the argument
/// behind the first flag; without a flag there is none, and without a value
/// behind it, or with one above 255, there is an error.
pub proof fn law_bringup_argument(args: Seq<Seq<char>>, i: int, n: nat)
    requires
        0 <= i <= args.len(),
        forall|j: int| 0 <= j < i ==> #[trigger] args[j] != "--fail-bringup"@,
        i < args.len() ==> args[i] == "--fail-bringup"@,
        i + 1 < args.len() ==> args[i + 1] == "slave="@ + decimal(n),
    ensures
        i == args.len() ==> bringup_failure(args) == Ok::<Option<u8>, Seq<char>>(None),
        i + 1 == args.len() ==> bringup_failure(args) is Err,
        i + 1 < args.len() && n <= 255 ==> bringup_failure(args) == Ok::<_, Seq<char>>(
            Some(n as u8),
        ),
        i + 1 < args.len() && n > 255 ==> bringup_failure(args) is Err,
{
    lemma_flag_place(args, i);
    law_decimal_round_trip(n as int);
    assert(decimal_int(n as int) == decimal(n));
    let head = "slave="@;
    let t = head + decimal(n);
    assert(t.take(head.len() as int) =~= head);
    assert(t.skip(head.len() as int) =~= decimal(n));
    assert(without_prefix(t, head) == Some(decimal(n)));
    lemma_first_digit(n);
}

proof fn lemma_first_digit(n: nat)
    ensures
        decimal(n).len() > 0,
        decimal(n)[0] != '-',
    decreases n,
{
    if n >= 10 {
        lemma_first_digit(n / 10);
    }
}

/// The bytes of a piece on the wire, without the reserved ones: when it starts,
/// its four coefficients, and how long it lasts.
pub open spec fn piece_wire(p: PieceEntry) -> Seq<u8> {
    le_bytes(p.start_time as int, 8) + le_bytes(p.coeffs.0 as int, 4) + le_bytes(
        p.coeffs.1 as int,
        4,
    ) + le_bytes(p.coeffs.2 as int, 4) + le_bytes(p.coeffs.3 as int, 4) + le_bytes(
        p.duration as int,
        4,
    )
}

/// Whether bytes hold pieces one after the other, each in 32 bytes, of which
/// the last four may be anything.
pub open spec fn holds_pieces(b: Seq<u8>, pieces: Seq<PieceEntry>) -> bool {
    &&& b.len() == 32 * pieces.len()
    &&& forall|i: int|
        0 <= i < pieces.len() ==> b.subrange(32 * i, 32 * i + 28) == piece_wire(
            #[trigger] pieces[i],
        )
}

proof fn lemma_piece_read(b: Seq<u8>, p: PieceEntry)
    requires
        b.len() == 32,
        b.subrange(0, 28) == piece_wire(p),
    ensures
        piece_of(b) == p,
        le_value(b.subrange(0, 8)) == p.start_time,
{
    lemma_limits();
    let w = piece_wire(p);
    law_le_round_trip(p.start_time as int, 8);
    law_le_round_trip(p.coeffs.0 as int, 4);
    law_le_round_trip(p.coeffs.1 as int, 4);
    law_le_round_trip(p.coeffs.2 as int, 4);
    law_le_round_trip(p.coeffs.3 as int, 4);
    law_le_round_trip(p.duration as int, 4);
    assert(w.len() == 28);
    assert forall|i: int| 0 <= i < 28 implies b[i] == w[i] by {
        assert(b.subrange(0, 28)[i] == b[i]);
    }
    assert(b.subrange(0, 8) =~= le_bytes(p.start_time as int, 8));
    assert(b.subrange(8, 12) =~= le_bytes(p.coeffs.0 as int, 4));
    assert(b.subrange(12, 16) =~= le_bytes(p.coeffs.1 as int, 4));
    assert(b.subrange(16, 20) =~= le_bytes(p.coeffs.2 as int, 4));
    assert(b.subrange(20, 24) =~= le_bytes(p.coeffs.3 as int, 4));
    assert(b.subrange(24, 28) =~= le_bytes(p.duration as int, 4));
}

/// Pieces that are pushed stand in the ring as they were sent, behind those that
/// were there, in order, as many as 256 leave room for. The answer tells whether
/// all found room, when they came, and when the first of them starts.
pub proof fn law_pieces_join_in_order(
    v: EndpointView,
    correlation_id: u32,
    msg: PushPieces,
    pieces: Seq<PieceEntry>,
    now: u64,
)
    requires
        ring_ok(v.ring),
        pieces.len() == msg.piece_count,
        holds_pieces(msg.pieces_bytes@, pieces),
    ensures
        ({
            let (w, out) = answered(v, Command::PushPieces { correlation_id, msg }, now);
            let room = 256 - v.ring.pieces.len();
            &&& pieces.len() <= room ==> w.ring.pieces == v.ring.pieces + pieces
            &&& pieces.len() > room ==> w.ring.pieces == v.ring.pieces + pieces.take(room)
            &&& w.ring.armed == v.ring.armed && w.ring.retired == v.ring.retired && w.ring.fault
                == v.ring.fault
            &&& out == seq![
                ReplyView::PushPieces {
                    correlation_id,
                    result: if pieces.len() <= room {
                        0
                    } else {
                        -309i32
                    },
                    arrival_clock: now,
                    front_start_time: if pieces.len() > 0 {
                        pieces[0].start_time
                    } else {
                        0
                    },
                },
            ]
        }),
{
    let b = msg.pieces_bytes@;
    let room = 256 - v.ring.pieces.len();
    let n = if pieces.len() <= room {
        pieces.len() as int
    } else {
        room
    };
    assert forall|i: int| 0 <= i < pieces.len() implies piece_of(
        #[trigger] b.subrange(32 * i, 32 * i + 32),
    ) == pieces[i] by {
        let c = b.subrange(32 * i, 32 * i + 32);
        assert(c.subrange(0, 28) =~= b.subrange(32 * i, 32 * i + 28));
        lemma_piece_read(c, pieces[i]);
    }
    assert(pieces_of(n, b) =~= pieces.take(n));
    assert(pieces.take(pieces.len() as int) =~= pieces);
    if pieces.len() > 0 {
        let c = b.subrange(0, 32);
        assert(c.subrange(0, 28) =~= b.subrange(32 * 0int, 32 * 0int + 28));
        lemma_piece_read(c, pieces[0]);
        assert(c.subrange(0, 8) =~= b.subrange(0, 8));
    }
}

/// A piece is taken up as long as it is at most 1.2 milliseconds late; from then
/// on there is a fault with the code -308 in its lower half and the lateness
/// above it. The piece that was taken up runs until it is over, and leaves the
/// ring from then on.
pub proof fn law_piece_is_run_in_time(v: RingView, now: u64)
    requires
        ring_ok(v),
        v.pieces.len() > 0,
    ensures
        ({
            let p = v.pieces[0];
            let (step, w) = walked(v, now);
            match v.armed {
                None => {
                    &&& w.pieces == v.pieces && w.retired == v.retired
                    &&& now <= p.start_time + 1_200_000 ==> step == WalkStep::TakeUp(p) && w == v
                    &&& now > p.start_time + 1_200_000 ==> {
                        let late = late_micros(now - p.start_time);
                        &&& step == WalkStep::Faulted
                        &&& w.fault % 0x1_0000 == 0x1_0000 - 308
                        &&& 0 <= late < 0xFFFF ==> w.fault / 0x1_0000 == late
                        &&& late >= 0xFFFF ==> w.fault / 0x1_0000 == 0xFFFF
                    }
                },
                Some(end) => {
                    &&& now < end ==> step == WalkStep::Running(p) && w == v
                    &&& now >= end ==> w.pieces == v.pieces.skip(1) && w.armed is None && w.retired
                        == if v.retired == u32::MAX {
                        0
                    } else {
                        v.retired + 1
                    }
                },
            }
        }),
{
    crate::ethercat::curves::lemma_late_micros(
        if now >= v.pieces[0].start_time {
            now - v.pieces[0].start_time
        } else {
            0
        },
    );
}

/// A piece that leaves the ring is followed in the same sample by the next.
pub proof fn law_next_piece_follows(v: RingView, end: u64, now: u64)
    requires
        ring_ok(v),
        v.armed == Some(end),
        now >= end,
    ensures
        v.pieces.len() == 1 ==> walked(v, now).0 == WalkStep::Idle,
        v.pieces.len() > 1 && now <= v.pieces[1].start_time + 1_200_000 ==> walked(v, now).0
            == WalkStep::TakeUp(v.pieces[1]),
        v.pieces.len() > 1 && now > v.pieces[1].start_time + 1_200_000 ==> walked(v, now).0
            == WalkStep::Faulted,
{
}

/// Every command but an unknown one is answered first under its own number on
/// the control channel; an unknown one is not answered and changes nothing.
pub proof fn law_commands_are_answered(v: EndpointView, cmd: Command, now: u64)
    ensures
        ({
            let (w, out) = answered(v, cmd, now);
            let cid = match cmd {
                Command::Identify { correlation_id, .. } => correlation_id,
                Command::PushPieces { correlation_id, .. } => correlation_id,
                Command::QueryRuntimeCaps { correlation_id } => correlation_id,
                Command::ClaimHandshake { correlation_id } => correlation_id,
                Command::SetTorque { correlation_id, .. } => correlation_id,
                Command::Unknown { correlation_id, .. } => correlation_id,
            };
            if cmd is Unknown {
                out.len() == 0 && w == v
            } else {
                &&& 1 <= out.len() <= 2
                &&& message_for(out[0]) matches Some(m) && m.channel == 0 && m.correlation_id == cid
                &&& out.len() == 2 ==> out[1] == ReplyView::Exit && cmd is SetTorque
            }
        }),
{
}

/// A torque command is refused with -312 where it does not fit the switch: an
/// enable while torque is on and stays on, a disable while it is off or about to
/// go off. A disable is refused with -311 where its time has come. An enable
/// whose ladder fails is answered with -310.
pub proof fn law_torque_answers(v: EndpointView, cid: u32, msg: SetTorque, now: u64)
    requires
        gate_ok(v.gate),
    ensures
        ({
            let (w, out) = torque_set(v, cid, msg, now);
            let on = v.gate.state == TorqueState::Enabled;
            let ending = v.gate.pending is Some;
            let result: int = if msg.value != 0 {
                if on && !ending {
                    -312
                } else if v.fail_enable {
                    -310
                } else {
                    0
                }
            } else if !on || ending {
                -312
            } else if msg.execute_at_ns <= now {
                -311
            } else {
                0
            };
            &&& out[0] matches ReplyView::SetTorque { correlation_id, result: code } && correlation_id
                == cid && code == result
            &&& result == 0 ==> out.len() == 1
            &&& result != 0 ==> out == seq![out[0], ReplyView::Exit]
            &&& result == 0 && msg.value != 0 ==> w.gate.state == TorqueState::Enabled
                && w.gate.pending is None
            &&& result == 0 && msg.value == 0 ==> w.gate.state == TorqueState::Enabled
                && w.gate.pending == Some(msg.execute_at_ns)
            &&& result == -310 ==> w.gate.state == TorqueState::Parked
            &&& w.ring == v.ring
        }),
{
}

/// While pieces wait, a switch that is off, or whose disable is due, ends the
/// process with the code -313 in the fault; a disable that is due turns torque
/// off when no piece is left; otherwise a cycle leaves the switch alone.
pub proof fn law_switch_in_a_cycle(v: EndpointView, now: u64)
    requires
        gate_ok(v.gate),
    ensures
        ({
            let (w, out) = gate_ticked(v, now);
            let due = v.gate.pending matches Some(at) && at <= now;
            let waiting = v.ring.pieces.len() > 0;
            let on = v.gate.state == TorqueState::Enabled;
            &&& waiting && (due || !on) ==> w == v && out == seq![
                ReplyView::Heartbeat {
                    engine_state: 3,
                    fault: (0x1_0000 - 313) as u32,
                    retired_count: v.ring.retired,
                },
                ReplyView::Exit,
            ]
            &&& !waiting && due ==> out.len() == 0 && w.gate.state == TorqueState::Parked
                && w.gate.pending is None && w.ring == v.ring
            &&& !due && (on || !waiting) ==> out.len() == 0 && w == v
        }),
{
}

/// A report tells of the engine's state: three with a fault, one while pieces
/// wait, none otherwise; and of the pieces that are over.
pub proof fn law_report_tells(v: EndpointView)
    ensures
        ({
            let out = reported(v).1;
            &&& out.len() <= 1
            &&& out.len() == 0 <==> v.ring.fault == 0 && v.heartbeat_sent && v.last_sent_retired
                == v.ring.retired
            &&& out.len() == 1 ==> (message_for(out[0]) matches Some(m) && m.channel == 1
                && m.correlation_id == 0 && (m.body matches
                ReplyBodyView::StatusHeartbeat {
                engine_state,
                fault_code,
                retired_counts,
            } && fault_code == v.ring.fault && retired_counts == seq![v.ring.retired] && engine_state
                == if v.ring.fault != 0 {
                3int
            } else if v.ring.pieces.len() > 0 {
                1
            } else {
                0
            }))
        }),
{
}

/// A message is read by its kind; on the channel for pieces every message is
/// pieces. One that cannot be read is refused, and one of an unknown kind is
/// passed on with the number of the kind.
pub proof fn law_commands_are_read(m: Received, h: MessageHeader)
    requires
        m.header == Some(h),
    ensures
        (m.on_pieces_channel || h.kind == Some(CommandKind::PushPieces)) ==> match m.pieces {
            Some(p) => command_of(m) == Ok::<_, DecodeCmdError>(
                Command::PushPieces { correlation_id: h.correlation_id, msg: p },
            ),
            None => command_of(m) == Err::<Command, _>(DecodeCmdError::BadBody),
        },
        !m.on_pieces_channel && h.kind == Some(CommandKind::SetTorque) ==> match m.torque {
            Some(t) => command_of(m) == Ok::<_, DecodeCmdError>(
                Command::SetTorque { correlation_id: h.correlation_id, msg: t },
            ),
            None => command_of(m) == Err::<Command, _>(DecodeCmdError::BadBody),
        },
        !m.on_pieces_channel && h.kind == Some(CommandKind::Identify) ==> (command_of(m) matches Ok(
            Command::Identify { correlation_id, proto_version },
        ) && correlation_id == h.correlation_id && (m.first_byte matches Some(b) ==> b
            == proto_version) && (m.first_byte is None ==> proto_version == 0)),
        !m.on_pieces_channel && h.kind == Some(CommandKind::QueryRuntimeCaps) ==> command_of(m)
            == Ok::<_, DecodeCmdError>(
            Command::QueryRuntimeCaps { correlation_id: h.correlation_id },
        ),
        !m.on_pieces_channel && h.kind == Some(CommandKind::ClaimHandshake) ==> command_of(m)
            == Ok::<_, DecodeCmdError>(
            Command::ClaimHandshake { correlation_id: h.correlation_id },
        ),
        !m.on_pieces_channel && h.kind is None ==> command_of(m) == Ok::<_, DecodeCmdError>(
            Command::Unknown { correlation_id: h.correlation_id, kind_raw: h.kind_raw },
        ),
{
}

/// An identify request is answered with the protocol version that it asks for,
/// and the endpoint's name; a question for memory with room for 256 pieces of 32
/// bytes; a claim with one drive, the first, which is operational.
pub proof fn law_what_is_answered(v: EndpointView, cid: u32, version: u8, now: u64)
    ensures
        ({
            let (w, out) = answered(
                v,
                Command::Identify { correlation_id: cid, proto_version: version },
                now,
            );
            &&& w == v && out.len() == 1
            &&& message_for(out[0]) matches Some(m) && (m.body matches
                ReplyBodyView::IdentifyResponse(i) && i.proto_version == version && i.firmware_ver
                == 1 && i.build_hash.len() == 20 && i.schema_hash.len() == 32 && (forall|k: int|
                0 <= k < 20 ==> #[trigger] i.build_hash[k] == 0) && (forall|k: int|
                0 <= k < 32 ==> #[trigger] i.schema_hash[k] == 0) && i.reset_epoch == 0
                && i.capabilities == 0 && i.mcu_serial == Seq::new(
                11,
                |k: int| "ETHERCAT-RT"@[k] as u8,
            ).push(0))
        }),
        ({
            let (w, out) = answered(v, Command::QueryRuntimeCaps { correlation_id: cid }, now);
            &&& w == v && out.len() == 1
            &&& message_for(out[0]) matches Some(m) && (m.body matches
                ReplyBodyView::RuntimeCapsResponse { total_piece_memory } && total_piece_memory
                == 256 * 32)
        }),
        ({
            let (w, out) = answered(v, Command::ClaimHandshake { correlation_id: cid }, now);
            &&& w == v && out.len() == 1
            &&& message_for(out[0]) matches Some(m) && (m.body matches
                ReplyBodyView::ClaimHandshakeReply(drives) && drives.len() == 1
                && drives[0].slave_idx == 1 && drives[0].fault_code == 0 && drives[0].state
                == SlaveState::Operational)
        }),
{
    reveal_strlit("ETHERCAT-RT");
    let name = "ETHERCAT-RT"@;
    assert(name.len() == 11);
    assert(name[0] == 'E' && name[1] == 'T' && name[2] == 'H' && name[3] == 'E' && name[4] == 'R'
        && name[5] == 'C' && name[6] == 'A' && name[7] == 'T' && name[8] == '-' && name[9] == 'R'
        && name[10] == 'T');
    assert(crate::ethercat::frames::own_serial() =~= Seq::new(11, |k: int| name[k] as u8).push(0));
}

/// A capture that is ended is not running any more, and can be started afresh
/// with nothing lost; one that is not running stays as it is.
pub proof fn law_ended_capture(v: CaptureView)
    ensures
        !after_stop(v).active,
        v.active ==> after_stop(v).failure is None,
        after_stop(v).capacity == v.capacity,
        !v.active ==> after_stop(v) == v,
{
}

} // verus!
