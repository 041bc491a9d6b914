//! Tests of the ring of pieces and of the endpoint.

use kalico_host_rt::ethercat::capture::{
    encode_record, header_json, Capture, CaptureConfig, CaptureRecord, DriveSample, Handed,
    StopOutcome, ERR_CAPTURE_ACTIVE, ERR_CAPTURE_BAD_ARG, ERR_CAPTURE_FILE, ERR_CAPTURE_NOT_ACTIVE,
    ERR_CAPTURE_OVERFLOW, FLAG_TORQUE_ENABLED,
};
use kalico_host_rt::ethercat::curves::{
    AxisRing, PieceEntry, WalkStep, AXIS_RING_CAPACITY, EC_DC_PERIOD_NS, FAULT_REG_NONE, NUM_AXES,
    PIECE_ENTRY_SIZE,
};
use kalico_host_rt::ethercat::endpoint::{Endpoint, Reply};
use kalico_host_rt::ethercat::wire::{
    decode_command, Command, CommandKind, DecodeCmdError, MessageHeader, PushPieces, Received,
    SetTorque,
};
use kalico_host_rt::producer::{BezierPiece, CurveLoadParams};

/// The clock of the endpoint in ticks per second.
const CLOCK_FREQ_HZ: f32 = 1_000_000_000.0;

/// Where a piece ends.
fn end_time(p: &PieceEntry) -> u64 {
    p.start_time + (f32::from_bits(p.duration) * CLOCK_FREQ_HZ) as u64
}

fn piece(start_time: u64, c: [f32; 4], duration: f32) -> PieceEntry {
    PieceEntry {
        start_time,
        coeffs: (c[0].to_bits(), c[1].to_bits(), c[2].to_bits(), c[3].to_bits()),
        duration: duration.to_bits(),
    }
}

/// A piece that goes gently from one place to another.
fn ease_entry(from: f32, to: f32, start_time_ns: u64, dur_s: f32) -> PieceEntry {
    piece(start_time_ns, [from, from, to, to], dur_s)
}

fn to_le_bytes(p: &PieceEntry) -> Vec<u8> {
    let mut b = p.start_time.to_le_bytes().to_vec();
    for c in [p.coeffs.0, p.coeffs.1, p.coeffs.2, p.coeffs.3, p.duration, 0] {
        b.extend_from_slice(&c.to_le_bytes());
    }
    b
}

/// The place and the speed of a piece at a time.
fn eval(p: &PieceEntry, now: u64) -> (f32, f32) {
    let b = [p.coeffs.0, p.coeffs.1, p.coeffs.2, p.coeffs.3].map(f32::from_bits);
    let d = f32::from_bits(p.duration);
    let s = now.saturating_sub(p.start_time) as f32 / CLOCK_FREQ_HZ / d;
    let r = 1.0 - s;
    let pos = r * r * r * b[0]
        + 3.0 * s * r * r * b[1]
        + 3.0 * s * s * r * b[2]
        + s * s * s * b[3];
    let vel = 3.0 * (r * r * (b[1] - b[0]) + 2.0 * s * r * (b[2] - b[1]) + s * s * (b[3] - b[2]))
        / d;
    (pos, vel)
}

/// Samples an axis as the cycle does.
fn sample(ring: &mut AxisRing, now: u64) -> Option<(f32, f32)> {
    loop {
        match ring.sample(now) {
            WalkStep::Idle | WalkStep::Faulted => return None,
            WalkStep::Running(p) => return Some(eval(&p, now)),
            WalkStep::TakeUp(p) => ring.take_up(end_time(&p)),
        }
    }
}

#[test]
fn ring_walk_eval_single_piece() {
    let mut ring = AxisRing::new();
    let t0: u64 = 1_000_000_000; // 1 s in ns
    let dur: f32 = 1.0; // 1 s

    ring.push_entry(ease_entry(0.0, 10.0, t0, dur)).unwrap();

    let (pos_start, _vel) = sample(&mut ring, t0).unwrap();
    assert!((pos_start - 0.0).abs() < 1e-3, "start pos={pos_start}");

    let (pos_mid, _vel) = sample(&mut ring, t0 + 500_000_000).unwrap();
    assert!((pos_mid - 5.0).abs() < 0.2, "mid pos={pos_mid}");

    let pos_after = sample(&mut ring, t0 + 2_000_000_000);
    assert!(
        pos_after.is_none(),
        "ring must be empty after piece expires"
    );
    assert_eq!(ring.retired_count(), 1);
}

#[test]
fn ring_walk_two_pieces_contiguous() {
    let mut ring = AxisRing::new();
    // Both pieces are 1 ms each. Piece 0 starts at t0, piece 1 at t0+1ms.
    let t0: u64 = 1_000_000_000;
    let dur_ns: u64 = 1_000_000; // 1 ms in ns
    let dur_s: f32 = 0.001;

    ring.push_entry(ease_entry(0.0, 10.0, t0, dur_s)).unwrap();
    ring.push_entry(ease_entry(10.0, 0.0, t0 + dur_ns, dur_s)).unwrap();

    // Sample at exactly t0 (elapsed=0 → pos=0).
    let (pos_start, _) = sample(&mut ring, t0).unwrap();
    assert!((pos_start - 0.0).abs() < 1e-3, "start pos={pos_start}");
    assert_eq!(ring.retired_count(), 0);

    // Sample at piece 0 end_time: retire piece 0, take up piece 1.
    let (pos_boundary, _) = sample(&mut ring, t0 + dur_ns).unwrap();
    assert!(
        (pos_boundary - 10.0).abs() < 0.1,
        "pos at piece0 end={pos_boundary}"
    );
    assert_eq!(ring.retired_count(), 1, "piece 0 retired at boundary");

    // Sample just before piece 1 expires.
    let (pos_p1_near_end, _) = sample(&mut ring, t0 + 2 * dur_ns - 1).unwrap();
    assert!(
        (pos_p1_near_end - 0.0).abs() < 0.1,
        "piece1 near-end pos={pos_p1_near_end}"
    );

    // Sample at exactly piece 1 end_time → retires piece 1, ring empty → None.
    let pos_gone = sample(&mut ring, t0 + 2 * dur_ns);
    assert!(pos_gone.is_none(), "ring must be empty at piece 1 end_time");
    assert_eq!(ring.retired_count(), 2);
}

#[test]
fn push_from_bytes_round_trips() {
    let entry = ease_entry(0.0, 5.0, 500_000_000, 0.5);
    let bytes = to_le_bytes(&entry);
    let mut all_bytes = bytes.to_vec();
    all_bytes.extend_from_slice(&bytes); // two identical pieces

    let mut ring = AxisRing::new();
    let pushed = ring.push_from_bytes(2, &all_bytes);
    assert_eq!(pushed, 2);
    assert_eq!(ring.len(), 2);
    assert_eq!(ring.sample(500_000_000), WalkStep::TakeUp(entry));
}

#[test]
fn retired_count_heartbeat() {
    let mut ring = AxisRing::new();
    assert_eq!(ring.retired_count(), 0);

    // A 1 ms piece starting at t=0.
    ring.push_entry(ease_entry(0.0, 1.0, 0, 0.001)).unwrap();
    // Before expiry: no retirement.
    sample(&mut ring, 0);
    assert_eq!(ring.retired_count(), 0, "not yet retired");

    let mut ring2 = AxisRing::new();
    ring2.push_entry(ease_entry(0.0, 1.0, 0, 0.001)).unwrap();
    sample(&mut ring2, 0);
    sample(&mut ring2, 500_000);
    assert_eq!(ring2.retired_count(), 0, "not yet retired at 0.5ms");
    sample(&mut ring2, 2_000_000);
    assert_eq!(ring2.retired_count(), 1, "should be retired at 2ms");
}

#[test]
fn reset_clears_ring() {
    let mut ring = AxisRing::new();
    ring.push_entry(ease_entry(0.0, 1.0, 0, 1.0)).unwrap();
    ring.push_entry(ease_entry(1.0, 0.0, 1_000_000_000, 1.0)).unwrap();
    ring.reset();
    assert!(ring.is_empty());
    assert!(!ring.is_armed());
    assert_eq!(
        ring.take_fault(),
        None,
        "reset must clear the fault register"
    );
}

#[test]
fn ethercat_fault_latches() {
    let mut ring = AxisRing::new();

    // No fault before any sample.
    assert_eq!(ring.take_fault(), None, "no fault on empty ring");

    // start_time = 0, sampled at 20 ms: more than 1.2 ms late.
    let piece_start_ns: u64 = 0;
    let sample_now_ns: u64 = 20_000_000;
    ring.push_entry(ease_entry(0.0, 1.0, piece_start_ns, 100.0)).unwrap();

    let result = sample(&mut ring, sample_now_ns);
    assert!(result.is_none(), "PieceStartInPast must return None");

    // Fault must be latched.
    let fault_val = ring.take_fault().expect("fault must be latched");

    // Low 16 bits: error code.
    let code_u16 = (fault_val & 0xFFFF) as u16;
    let expected_code = (-308_i32 as i16) as u16;
    assert_eq!(
        code_u16, expected_code,
        "fault code must be PieceStartInPast wire value"
    );

    // High 16 bits: deficit in µs.
    let deficit_us_hi = (fault_val >> 16) as u16;
    assert_eq!(
        deficit_us_hi, 20_000_u16,
        "fault high 16 bits must be deficit_us=20000 (0x4E20)"
    );

    // take_fault() must clear the register — second call returns None.
    assert_eq!(
        ring.take_fault(),
        None,
        "fault register must be cleared after take"
    );

    // retired_count must still be 0 — the fault path does not advance the counter.
    assert_eq!(ring.retired_count(), 0, "fault must not retire the piece");
}

#[test]
fn fault_boundary_exact() {
    const MAX_START_IN_PAST_SECS: f32 = 200e-6;
    let drift_budget = (MAX_START_IN_PAST_SECS * CLOCK_FREQ_HZ) as u64; // 200_000 ns
    let fault_tolerance_ns = drift_budget + u64::from(EC_DC_PERIOD_NS); // 1_200_000 ns

    // gap == fault_tolerance → must NOT fault.
    let now_a: u64 = 10_000_000_000;
    let start_a: u64 = now_a - fault_tolerance_ns;

    let mut ring_a = AxisRing::new();
    // Long-duration piece so it's still active at now_a.
    ring_a.push_entry(piece(start_a, [0.0; 4], 10.0)).unwrap();

    let result_a = sample(&mut ring_a, now_a);
    assert!(
        result_a.is_some(),
        "gap == fault_tolerance ({fault_tolerance_ns} ns) must NOT fault"
    );
    assert_eq!(
        ring_a.take_fault(),
        None,
        "no fault must be latched when gap == tolerance"
    );

    // gap == fault_tolerance + 1 → MUST fault.
    let start_b: u64 = now_a - fault_tolerance_ns - 1;
    let mut ring_b = AxisRing::new();
    ring_b.push_entry(piece(start_b, [0.0; 4], 10.0)).unwrap();

    let result_b = sample(&mut ring_b, now_a);
    assert!(
        result_b.is_none(),
        "gap == fault_tolerance + 1 must fault and return None"
    );

    let fault_val = ring_b
        .take_fault()
        .expect("fault register must be latched when gap > fault_tolerance");
    let expected_code = (-308_i32 as i16) as u16;
    let code_u16 = (fault_val & 0xFFFF) as u16;
    assert_eq!(
        code_u16, expected_code,
        "fault register low 16 bits must be 0xFECC (−308)"
    );
    let deficit_us_hi = (fault_val >> 16) as u16;
    assert_eq!(
        deficit_us_hi, 1200_u16,
        "fault register high 16 bits must be 1200 µs (deficit at tolerance+1 boundary)"
    );
}

#[test]
fn fault_then_in_window_recovers() {
    let mut ring = AxisRing::new();
    let now_ns: u64 = 20_000_000; // 20 ms > 1.2 ms tolerance
    let start_ns: u64 = 0;
    ring.push_entry(ease_entry(0.0, 1.0, start_ns, 0.1)).unwrap(); // 100 ms piece

    // First sample — should fault.
    let r1 = sample(&mut ring, now_ns);
    assert!(r1.is_none(), "stale unarm must return None");
    assert_eq!(ring.retired_count(), 0, "no retirement on fault");
    let fault1 = ring.take_fault().expect("fault must be latched");
    assert_ne!(fault1, FAULT_REG_NONE, "fault register must be non-zero");

    // Reset to drain the stale piece, then a fresh piece recovers.
    ring.reset();
    assert_eq!(ring.take_fault(), None, "reset clears fault register");

    let now2: u64 = 1_000_000_000;
    ring.push_entry(ease_entry(0.0, 1.0, now2, 0.1)).unwrap(); // starts exactly now
    let r2 = sample(&mut ring, now2);
    assert!(r2.is_some(), "in-window piece must return Some after reset");
    assert_eq!(ring.take_fault(), None, "no fault for in-window piece");
}

#[test]
fn piece_boundary_c0_c1_continuity() {
    let mut ring = AxisRing::new();
    let t0: u64 = 5_000_000_000;
    let dur_ns: u64 = 1_000_000;
    let dur_s: f32 = 0.001;
    let boundary_ns = t0 + dur_ns;
    ring.push_entry(piece(t0, [0.0, 5.0 / 3.0, 10.0 / 3.0, 5.0], dur_s)).unwrap();
    ring.push_entry(piece(boundary_ns, [5.0, 5.0 + 5.0 / 3.0, 5.0 + 10.0 / 3.0, 10.0], dur_s))
        .unwrap();

    let (pos_before, vel_before) = {
        sample(&mut ring, t0).unwrap();
        sample(&mut ring, boundary_ns - 1).expect("sample before boundary must return Some")
    };
    assert_eq!(ring.take_fault(), None);
    let (pos_after, vel_after) =
        sample(&mut ring, boundary_ns + 1).expect("sample after boundary must return Some");
    assert_eq!(ring.take_fault(), None);

    assert!((pos_after - pos_before).abs() < 0.01_f32);
    assert!((vel_after - vel_before).abs() < 1.0_f32);
    assert!(vel_before > 0.0_f32);
    assert!(vel_after > 0.0_f32);
    assert!((vel_before - 5000.0_f32).abs() < 250.0_f32);
    assert!((vel_after - 5000.0_f32).abs() < 250.0_f32);
}

#[test]
fn piece_start_in_past_faults_and_returns_none() {
    let mut ring = AxisRing::new();
    let now_ns: u64 = 10_000_000_000;
    // Piece starts 1 s before now.
    let stale_start = now_ns - 1_000_000_000;
    ring.push_entry(piece(stale_start, [0.0; 4], 0.001)).unwrap();
    let result = sample(&mut ring, now_ns);
    assert!(
        result.is_none(),
        "expected None (PieceStartInPast fault) for a piece starting 1 s before now, got {result:?}"
    );
}

#[test]
fn sustained_streaming_past_ring_depth() {
    const TOTAL: usize = AXIS_RING_CAPACITY + 20;
    const PIECE_DUR_NS: u64 = EC_DC_PERIOD_NS as u64;
    const BASE_NS: u64 = 10_000_000_000_u64;

    let mm_per_piece = 1.0_f32 / TOTAL as f32;
    let pieces: Vec<PieceEntry> = (0..TOTAL)
        .map(|i| {
            let from = i as f32 * mm_per_piece;
            let to = (i + 1) as f32 * mm_per_piece;
            let d = to - from;
            let start_ns = BASE_NS + i as u64 * PIECE_DUR_NS;
            piece(start_ns, [from, from + d / 3.0, from + 2.0 * d / 3.0, to], 0.001)
        })
        .collect();

    let mut ring = AxisRing::new();
    let mut next_to_push: usize = 0;
    let mut last_retired: u32 = 0;
    while next_to_push < TOTAL {
        if ring.push_entry(pieces[next_to_push]).is_err() {
            break; // ring full
        }
        next_to_push += 1;
    }
    assert_eq!(next_to_push, AXIS_RING_CAPACITY);

    let max_iterations = TOTAL * 4 + AXIS_RING_CAPACITY * 4;
    let mut now = BASE_NS;
    let mut iterations = 0usize;
    loop {
        assert!(iterations < max_iterations, "streaming stalled");
        iterations += 1;
        let _sample = sample(&mut ring, now);
        assert_eq!(ring.take_fault(), None, "spurious fault at iteration {iterations}");
        now = now.saturating_add(PIECE_DUR_NS);
        let current_retired = ring.retired_count();
        if current_retired != last_retired {
            last_retired = current_retired;
            while next_to_push < TOTAL {
                if ring.push_entry(pieces[next_to_push]).is_err() {
                    break; // ring full again
                }
                next_to_push += 1;
            }
        }
        if next_to_push == TOTAL && ring.retired_count() == TOTAL as u32 {
            break;
        }
    }
    assert_eq!(ring.retired_count(), TOTAL as u32);
    assert_eq!(ring.take_fault(), None);
    assert!(ring.is_empty());
}

#[test]
fn short_or_surplus_pieces_are_not_pushed() {
    let mut ring = AxisRing::new();
    assert_eq!(ring.push_from_bytes(2, &[0; 63]), 0);
    assert!(ring.is_empty());
    let many = vec![0u8; 200 * 32];
    assert_eq!(ring.push_from_bytes(200, &many), 200);
    assert_eq!(ring.push_from_bytes(200, &many), 56);
    assert_eq!(ring.len(), AXIS_RING_CAPACITY);
    assert!(ring.push_entry(piece(0, [0.0; 4], 0.0)).is_err());
}

#[test]
fn lateness_is_cut_to_sixteen_bits() {
    let mut ring = AxisRing::new();
    ring.push_entry(piece(0, [0.0; 4], 1.0)).unwrap();
    assert_eq!(ring.sample(u64::MAX), WalkStep::Faulted);
    assert_eq!(ring.take_fault(), Some(0xFFFF_FECC));
}

fn header(kind: Option<CommandKind>, kind_raw: u16, correlation_id: u32) -> Option<MessageHeader> {
    Some(MessageHeader { correlation_id, kind_raw, kind })
}

fn received(h: Option<MessageHeader>) -> Received {
    Received {
        on_pieces_channel: false,
        header: h,
        first_byte: None,
        pieces: None,
        torque: None,
    }
}

#[test]
fn decodes_identify_on_control_channel() {
    let mut m = received(header(Some(CommandKind::Identify), 1, 1));
    m.first_byte = Some(3);
    match decode_command(m).unwrap() {
        Command::Identify { correlation_id: 1, proto_version: 3 } => {}
        other => panic!("wrong variant: {other:?}"),
    }
}

#[test]
fn decodes_push_pieces_on_pieces_channel() {
    let mut m = received(header(Some(CommandKind::PushPieces), 2, 7));
    m.on_pieces_channel = true;
    m.pieces = Some(PushPieces {
        axis_idx: 0,
        piece_count: 0,
        start_slot: 0,
        new_head: 1,
        pieces_bytes: vec![],
    });
    match decode_command(m).unwrap() {
        Command::PushPieces { correlation_id, msg: m } => {
            assert_eq!(correlation_id, 7);
            assert_eq!(m.axis_idx, 0);
            assert_eq!(m.piece_count, 0);
            assert_eq!(m.new_head, 1);
        }
        other => panic!("wrong variant: {other:?}"),
    }
}

#[test]
fn decode_command_yields_claim_handshake_variant() {
    let m = received(header(Some(CommandKind::ClaimHandshake), 3, 99));
    match decode_command(m).unwrap() {
        Command::ClaimHandshake { correlation_id: 99 } => {}
        other => panic!("expected ClaimHandshake, got {other:?}"),
    }
}

#[test]
fn decodes_set_torque_command() {
    let mut m = received(header(Some(CommandKind::SetTorque), 4, 7));
    m.torque = Some(SetTorque { value: 1, execute_at_ns: 123_456_789 });
    match decode_command(m).expect("decode") {
        Command::SetTorque { correlation_id, msg: m } => {
            assert_eq!(correlation_id, 7);
            assert_eq!(m.value, 1);
            assert_eq!(m.execute_at_ns, 123_456_789);
        }
        other => panic!("expected SetTorque, got {other:?}"),
    }
}

#[test]
fn messages_that_are_no_commands_are_refused() {
    assert_eq!(decode_command(received(None)).unwrap_err(), DecodeCmdError::BadHeader);
    let mut m = received(header(Some(CommandKind::Identify), 1, 1));
    m.on_pieces_channel = true;
    assert_eq!(decode_command(m).unwrap_err(), DecodeCmdError::BadBody);
    let m = received(header(Some(CommandKind::SetTorque), 4, 1));
    assert_eq!(decode_command(m).unwrap_err(), DecodeCmdError::BadBody);
    match decode_command(received(header(None, 0x77, 2))).unwrap() {
        Command::Unknown { correlation_id: 2, kind_raw: 0x77 } => {}
        other => panic!("expected Unknown, got {other:?}"),
    }
}

/// One cycle of the endpoint.
fn cycle(e: &mut Endpoint, now: u64) -> Vec<Reply> {
    let mut out = e.gate_tick(now);
    loop {
        match e.sample(now) {
            WalkStep::TakeUp(p) => e.take_up(end_time(&p)),
            _ => break,
        }
    }
    out.extend(e.report());
    out
}

fn set_torque(e: &mut Endpoint, value: bool, execute_at_ns: u64, now: u64) -> (i32, bool) {
    let cmd = Command::SetTorque {
        correlation_id: 1,
        msg: SetTorque { value: u8::from(value), execute_at_ns },
    };
    let replies = e.handle_command(cmd, now);
    let result = match replies[0] {
        Reply::SetTorque { correlation_id: 1, result } => result,
        _ => panic!("a torque command is answered"),
    };
    (result, matches!(replies.last(), Some(Reply::Exit)))
}

fn push(e: &mut Endpoint, pieces: &[PieceEntry], now: u64) -> Vec<Reply> {
    let mut pieces_bytes = Vec::new();
    for p in pieces {
        pieces_bytes.extend_from_slice(&to_le_bytes(p));
    }
    let msg = PushPieces {
        axis_idx: 0,
        piece_count: pieces.len() as u8,
        start_slot: 0,
        new_head: pieces.len() as u32,
        pieces_bytes,
    };
    e.handle_command(Command::PushPieces { correlation_id: 1, msg }, now)
}

const T: u64 = 10_000_000_000;

#[test]
fn enable_acks_disable_schedules_and_parks() {
    let mut e = Endpoint::new(false);
    assert_eq!(set_torque(&mut e, true, T + 50, T), (0, false));
    assert_eq!(set_torque(&mut e, false, T + 200, T), (0, false));
    cycle(&mut e, T + 400);
    assert_eq!(set_torque(&mut e, true, T + 450, T + 400), (0, false));
}

#[test]
fn double_enable_rejects_and_exits() {
    let mut e = Endpoint::new(false);
    assert_eq!(set_torque(&mut e, true, T + 50, T), (0, false));
    assert_eq!(set_torque(&mut e, true, T + 50, T), (-312, true));
}

#[test]
fn disable_in_past_rejects_and_exits() {
    let mut e = Endpoint::new(false);
    assert_eq!(set_torque(&mut e, true, T + 50, T), (0, false));
    assert_eq!(set_torque(&mut e, false, 1, T), (-311, true));
}

#[test]
fn disable_while_parked_rejects_and_exits() {
    let mut e = Endpoint::new(false);
    assert_eq!(set_torque(&mut e, false, T + 200, T), (-312, true));
}

#[test]
fn reenable_with_pending_disable_cancels_it() {
    let mut e = Endpoint::new(false);
    assert_eq!(set_torque(&mut e, true, T + 50, T), (0, false));
    assert_eq!(set_torque(&mut e, false, T + 500, T), (0, false));
    assert_eq!(set_torque(&mut e, true, T + 50, T + 1), (0, false));
    cycle(&mut e, T + 700);
    assert_eq!(set_torque(&mut e, true, T + 750, T + 700), (-312, true));
}

#[test]
fn pieces_while_parked_fault_exits() {
    let mut e = Endpoint::new(false);
    push(&mut e, &[piece(T, [0.0; 4], 0.001)], T);
    let replies = e.gate_tick(T);
    assert!(matches!(
        replies[0],
        Reply::Heartbeat { engine_state: 3, fault: 0xFEC7, retired_count: 0 }
    ));
    assert!(matches!(replies[1], Reply::Exit));
}

#[test]
fn fail_enable_flag_returns_310_and_exits() {
    let mut e = Endpoint::new(true);
    assert_eq!(set_torque(&mut e, true, T + 50, T), (-310, true));
}

#[test]
fn push_pieces_and_heartbeat_closes_the_loop() {
    const N: usize = 3;
    let mut e = Endpoint::new(false);
    set_torque(&mut e, true, T, T - 1);
    let pieces: Vec<PieceEntry> =
        (0..N).map(|i| piece(T + i as u64 * 1_000_000, [0.0; 4], 0.001)).collect();
    match push(&mut e, &pieces, T)[0] {
        Reply::PushPieces { correlation_id: 1, result, arrival_clock, front_start_time } => {
            assert_eq!(result, 0);
            assert_eq!(arrival_clock, T);
            assert_eq!(front_start_time, T);
        }
        _ => panic!("pieces are answered"),
    }
    let mut beats = Vec::new();
    for k in 0..(N as u64 + 4) {
        for r in cycle(&mut e, T + k * 1_000_000) {
            if let Reply::Heartbeat { engine_state, fault, retired_count } = r {
                assert_eq!(fault, 0);
                beats.push((engine_state, retired_count));
            }
        }
    }
    assert_eq!(beats, vec![(1, 0), (1, 1), (1, 2), (0, 3)]);
}

#[test]
fn ethercat_endpoint_query_runtime_caps_round_trip() {
    let expected_total: u32 = (AXIS_RING_CAPACITY * NUM_AXES * PIECE_ENTRY_SIZE) as u32;
    let mut e = Endpoint::new(false);
    let total = match e.handle_command(Command::QueryRuntimeCaps { correlation_id: 6 }, T)[0] {
        Reply::RuntimeCaps { correlation_id: 6, total_piece_memory } => total_piece_memory,
        _ => panic!("the question is answered"),
    };
    assert_eq!(total, expected_total);
    let total_pieces = total / PIECE_ENTRY_SIZE as u32;
    let ring_depth = (total_pieces / NUM_AXES as u32).max(1);
    assert_eq!(ring_depth, AXIS_RING_CAPACITY as u32);
}

#[test]
fn the_endpoint_answers_the_rest() {
    let mut e = Endpoint::new(false);
    let r = e.handle_command(Command::Identify { correlation_id: 2, proto_version: 5 }, T);
    assert!(matches!(r[0], Reply::Identify { correlation_id: 2, proto_version: 5 }));
    let r = e.handle_command(Command::ClaimHandshake { correlation_id: 3 }, T);
    match &r[0] {
        Reply::Claim { correlation_id: 3, reply } => {
            assert_eq!(reply.slave_statuses.len(), 1);
            assert_eq!(reply.slave_statuses[0].slave_idx, 1);
        }
        _ => panic!("a claim is answered"),
    }
    assert!(e
        .handle_command(Command::Unknown { correlation_id: 4, kind_raw: 9 }, T)
        .is_empty());
    match push(&mut e, &[], T)[0] {
        Reply::PushPieces { result: 0, front_start_time: 0, .. } => {}
        _ => panic!("no pieces are answered too"),
    }
    let many: Vec<PieceEntry> = (0..200).map(|_| piece(T, [0.0; 4], 1.0)).collect();
    push(&mut e, &many, T);
    match push(&mut e, &many, T)[0] {
        Reply::PushPieces { result: -309, .. } => {}
        _ => panic!("the ring is full"),
    }
}

#[test]
fn a_late_piece_is_reported_once() {
    let mut e = Endpoint::new(false);
    set_torque(&mut e, true, T, T - 1);
    push(&mut e, &[piece(0, [0.0; 4], 100.0)], T);
    let r = cycle(&mut e, T);
    // A piece from the beginning of time is later than the register can say.
    assert!(matches!(
        r[0],
        Reply::Heartbeat { engine_state: 3, fault: 0xFFFF_FECC, retired_count: 0 }
    ));
    assert_eq!(r.len(), 1);
}

#[test]
fn a_late_piece_is_reported_with_its_deficit() {
    let mut e = Endpoint::new(false);
    set_torque(&mut e, true, T, T - 1);
    push(&mut e, &[piece(T - 1_500_000, [0.0; 4], 100.0)], T);
    let r = cycle(&mut e, T);
    assert!(matches!(r[0], Reply::Heartbeat { engine_state: 3, fault: 0x05DC_FECC, .. }));
    assert!(e.report().is_empty(), "the register is clear");
}

#[test]
fn a_lateness_is_multiplied_in_single_precision() {
    let mut late: u64 = 1_200_001;
    while late < 70_000_000 {
        let mut e = Endpoint::new(false);
        set_torque(&mut e, true, T, T - 1);
        push(&mut e, &[piece(T - late, [0.0; 4], 100.0)], T);
        let us = (late as f32 * (1e6 / 1e9)) as u32;
        let want = (us.min(0xFFFF) << 16) | 0xFECC;
        match cycle(&mut e, T)[0] {
            Reply::Heartbeat { engine_state: 3, fault, .. } => assert_eq!(fault, want, "{late}"),
            _ => panic!("the piece is late"),
        }
        late += 98_999;
    }
    // One microsecond more than are over.
    let us = (16_000_999u64 as f32 * (1e6 / 1e9)) as u32;
    assert_eq!(us, 16_001);
}

fn record() -> CaptureRecord {
    CaptureRecord {
        cycle_index: 0x0102_0304_0506_0708,
        flags: FLAG_TORQUE_ENABLED,
        drive: DriveSample {
            target_counts: -1,
            position_demand: 2,
            position_actual: i32::MIN,
            following_error: 0x0A0B_0C0D,
            torque_actual: -2,
            statusword: 0x1234,
            error_code: 0xFFFE,
        },
    }
}

#[test]
fn a_record_is_laid_out_byte_by_byte() {
    let r = record();
    let mut want = r.cycle_index.to_le_bytes().to_vec();
    want.push(1);
    for v in [r.drive.target_counts, 2, i32::MIN, 0x0A0B_0C0D] {
        want.extend_from_slice(&v.to_le_bytes());
    }
    want.extend_from_slice(&(-2i16).to_le_bytes());
    want.extend_from_slice(&0x1234u16.to_le_bytes());
    want.extend_from_slice(&0xFFFEu16.to_le_bytes());
    assert_eq!(want.len(), 31);
    assert_eq!(encode_record(&r), want);
}

fn config() -> CaptureConfig {
    CaptureConfig {
        path: "/tmp/x.scap".into(),
        started_utc: "2026-01-02T03:04:05Z".into(),
        drive_name: "drive 1".into(),
        cycle_ns: 1_000_000,
        counts_per_mm: format!("{}", 3276.8_f64),
        started_mono_ns: 77,
    }
}

#[test]
fn the_header_is_json() {
    let text = header_json(&config());
    assert!(text.ends_with('\n'));
    let v: serde_json::Value = serde_json::from_str(&text).unwrap();
    assert_eq!(v["version"], 1);
    assert_eq!(v["cycle_ns"], 1_000_000);
    assert_eq!(v["record_size"], 31);
    assert_eq!(v["started_utc"], "2026-01-02T03:04:05Z");
    assert_eq!(v["started_mono_ns"], 77);
    assert_eq!(v["drives"][0]["name"], "drive 1");
    assert_eq!(v["drives"][0]["counts_per_mm"], 3276.8);
    let channels = v["channels"].as_array().unwrap();
    assert_eq!(channels.len(), 9);
    assert_eq!(channels[0]["name"], "cycle_index");
    assert_eq!(channels[8]["name"], "error_code");
    assert_eq!(channels[8]["dtype"], "u16");
    assert_eq!(channels[8]["offset"], 29);
}

#[test]
fn a_capture_starts_once() {
    let mut c = Capture::with_capacity(4);
    assert_eq!(c.capacity(), 4);
    let mut bad = config();
    bad.drive_name = "a\"b".into();
    assert_eq!(c.check_start(&bad), ERR_CAPTURE_BAD_ARG);
    bad.drive_name = "a\u{e9}".into();
    assert_eq!(c.start(&bad, true), ERR_CAPTURE_BAD_ARG);
    assert_eq!(c.start(&config(), false), ERR_CAPTURE_FILE);
    assert!(!c.is_active());
    assert_eq!(c.start(&config(), true), 0);
    assert!(c.is_active() && c.wants_records());
    assert_eq!(c.start(&config(), true), ERR_CAPTURE_ACTIVE);
}

#[test]
fn the_first_lost_record_is_kept() {
    let mut c = Capture::default();
    c.start(&config(), true);
    let mut r = record();
    c.push(&r, Handed::Taken);
    r.cycle_index = 5;
    c.push(&r, Handed::Full);
    assert!(!c.wants_records());
    r.cycle_index = 6;
    c.push(&r, Handed::Gone);
    assert_eq!(
        c.stop(Ok(3), true),
        StopOutcome { result: ERR_CAPTURE_OVERFLOW, samples: 3, overflow_cycle: Some(5) }
    );
    assert!(!c.is_active());
    assert_eq!(
        c.stop(Ok(3), true),
        StopOutcome { result: ERR_CAPTURE_NOT_ACTIVE, samples: 0, overflow_cycle: None }
    );
}

#[test]
fn a_pending_stop_gives_its_outcome_once() {
    let mut c = Capture::new();
    c.start(&config(), true);
    let mut p = c.stop_async();
    assert!(p.try_take().is_none());
    assert!(p.is_failed(Err(2)));
    p.finish(Err(2), true);
    let want = StopOutcome { result: ERR_CAPTURE_FILE, samples: 2, overflow_cycle: None };
    assert_eq!(p.try_take(), Some(want));
    assert!(p.try_take().is_none());
    assert_eq!(p.wait(), want);
    c.start(&config(), true);
    assert_eq!(
        c.stop(Ok(9), false),
        StopOutcome { result: 0, samples: 9, overflow_cycle: None }
    );
}

#[test]
fn control_points_are_padded() {
    let pieces = vec![
        BezierPiece { bernstein: vec![1, 2], duration: 9 },
        BezierPiece { bernstein: vec![], duration: 8 },
        BezierPiece { bernstein: vec![1, 2, 3, 4, 5], duration: 7 },
    ];
    let c = CurveLoadParams::from_scalar_nurbs_normalized(&pieces);
    assert_eq!(c.piece_count(), 3);
    assert_eq!(c.bp_per_piece, vec![(1, 2, 2, 2), (0, 0, 0, 0), (1, 2, 3, 4)]);
    assert_eq!(c.duration_per_piece, vec![9, 8, 7]);
}
