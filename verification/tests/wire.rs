//! Tests of the frames on the wire.

use kalico_host_rt::host_io::minimal::{
    attempt_deadline, take_identify_response, MinimalHostIo, MinimalStep, WaitStep,
};
use kalico_host_rt::host_io::vlq::{decode_vlq, encode_vlq};
use kalico_host_rt::host_io::wire::{
    build_frame, build_retransmit_buffer, crc16_ccitt, decode_absolute, extract_packet,
    extract_packet_from, MESSAGE_DEST, MESSAGE_MIN, MESSAGE_SEQ_MASK, MESSAGE_SYNC,
};
use kalico_host_rt::transport::{MessageParams, MessageValue, TransportError};

#[test]
fn vlq_roundtrip_small_positive() {
    for v in [0i64, 1, 100, 1_000, 100_000, 1_000_000_000] {
        let mut buf = Vec::new();
        encode_vlq(&mut buf, v).unwrap();
        let (out, n) = decode_vlq(&buf).unwrap();
        assert_eq!(n, buf.len(), "consumed != encoded for {v}");
        assert_eq!(out, v, "roundtrip failed for {v}");
    }
}

#[test]
fn host_io_crc16_matches_klipper_test_vector() {
    // Reference vector: the checksum of [5, 0x10] is 0x9E81.
    let crc = crc16_ccitt(&[0x05, 0x10]);
    assert_eq!(crc, 0x9E81);
}

#[test]
fn wire_crc16_matches_klipper_test_vector() {
    assert_eq!(crc16_ccitt(&[0x05, 0x10]), 0x9E81);
}

#[test]
fn extract_packet_picks_up_minimal_nak_frame() {
    // 5-byte NAK: [len=5, seq=0x10, crc_hi, crc_lo, sync=0x7E].
    let crc = crc16_ccitt(&[0x05, 0x10]);
    let frame = vec![
        0x05,
        0x10,
        (crc >> 8) as u8,
        (crc & 0xFF) as u8,
        MESSAGE_SYNC,
    ];
    let mut buf = frame.clone();
    let extracted = extract_packet_from(&mut buf, MESSAGE_MIN).expect("must extract NAK");
    assert_eq!(extracted, frame);
    assert!(buf.is_empty());
}

#[test]
fn build_frame_roundtrips() {
    let frame = build_frame(&[0x01, 0x02], 0);
    assert_eq!(frame[0], 5 + 2); // len
    assert_eq!(frame[1] & MESSAGE_SEQ_MASK, 0);
    assert_eq!(frame[1] & !MESSAGE_SEQ_MASK, MESSAGE_DEST);
    assert_eq!(*frame.last().unwrap(), MESSAGE_SYNC);
}

#[test]
fn retransmit_buffer_starts_with_sync() {
    let f1 = build_frame(&[1], 0);
    let f2 = build_frame(&[2], 1);
    let buf = build_retransmit_buffer(&[f1.as_slice(), f2.as_slice()]);
    assert_eq!(buf[0], MESSAGE_SYNC);
    assert_eq!(buf.len(), 1 + f1.len() + f2.len());
}

#[test]
fn junk_before_a_frame_is_dropped() {
    let frame = build_frame(&[9, 8, 7], 3);
    let mut buf = vec![0x7E, 0xFF, 0x06];
    buf.extend_from_slice(&frame);
    buf.push(0x05);
    assert_eq!(extract_packet(&mut buf).unwrap(), frame);
    assert_eq!(buf, vec![0x05]);
    assert!(extract_packet(&mut buf).is_none());
    assert_eq!(buf, vec![0x05]);
}

#[test]
fn a_frame_in_parts_is_taken_whole() {
    let frame = build_frame(&[1, 2, 3], 9);
    let mut buf = frame[..4].to_vec();
    assert!(extract_packet(&mut buf).is_none());
    buf.extend_from_slice(&frame[4..]);
    assert_eq!(extract_packet(&mut buf).unwrap(), frame);
}

#[test]
fn a_wrong_checksum_is_junk() {
    let mut frame = build_frame(&[1, 2, 3], 9);
    frame[3] ^= 1;
    let mut buf = frame;
    assert!(extract_packet(&mut buf).is_none());
}

#[test]
fn four_bits_stand_for_the_next_sequence_that_ends_so() {
    assert_eq!(decode_absolute(0, 0), 0);
    assert_eq!(decode_absolute(15, 0), 16);
    assert_eq!(decode_absolute(17, 1), 17);
    assert_eq!(decode_absolute(17, 0), 32);
    assert_eq!(decode_absolute(u64::MAX, 0), 0);
}

#[test]
fn the_small_client_asks_and_reads() {
    let mut io = MinimalHostIo::new();
    let f = io.send_identify_request(0);
    assert_eq!(f, build_frame(&[0, 0, 40], 0));
    let f = io.send_identify_request(96);
    assert_eq!(f, build_frame(&[0, 0x80, 0x60, 40], 1));
    // a refusal, then the answer, in two reads
    let mut bytes = build_frame(&[], 5);
    bytes.extend_from_slice(&build_frame(&[0, 4, 2, 0xAA, 0xBB], 6));
    assert!(io.wait_for_identify_response(&bytes[..9]).is_none());
    assert_eq!(io.wait_for_identify_response(&bytes[9..]), Some((4, vec![0xAA, 0xBB])));
    assert_eq!(io.next_seq(), 6);
    assert_eq!(io.next_seq(), 7);
}

#[test]
fn the_small_client_refuses_long_commands() {
    let mut io = MinimalHostIo::new();
    assert_eq!(io.frame_and_write(&[1; 59]).unwrap().len(), 64);
    match io.frame_and_write(&[1; 60]) {
        Err(TransportError::Parse(s)) => assert_eq!(s, "cmd payload too large: 60 > 59"),
        _ => panic!("too long"),
    }
    match io.send("get_clock") {
        TransportError::Parse(s) => assert!(s.contains("cannot encode `get_clock`")),
        _ => panic!("no dictionary"),
    }
}

#[test]
fn the_small_client_follows_the_sequence() {
    let mut io = MinimalHostIo::new();
    io.pump_rx(&build_frame(&[1, 2], 11));
    assert_eq!(io.next_seq(), 11);
    io.clear();
    assert_eq!(io.next_seq(), 12);
}

#[test]
fn kept_messages_are_handed_out_by_name() {
    let mut io = MinimalHostIo::new();
    for (n, v) in [("a", 1), ("b", 2), ("a", 3), ("b", 4)] {
        let mut p = MessageParams::new();
        p.insert("v", MessageValue::U32(v));
        io.keep(n.to_string(), p);
    }
    match io.wait_for_response("b", 9, 9) {
        WaitStep::Got(p) => assert_eq!(p.get_u32("v"), 2),
        _ => panic!("kept"),
    }
    let all: Vec<u32> = io.poll_events("a").iter().map(|p| p.get_u32("v")).collect();
    assert_eq!(all, vec![1, 3]);
    assert!(matches!(io.wait_for_response("a", 3, 9), WaitStep::Pump(6)));
    assert!(matches!(io.wait_for_response("a", 9, 9), WaitStep::TimedOut));
    assert!(matches!(io.wait_for_response("b", 9, 9), WaitStep::Got(_)));
}

#[test]
fn the_small_handshake_collects_chunks() {
    let mut data = Vec::new();
    assert!(matches!(
        take_identify_response(&mut data, Some((0, vec![1, 2])), 0, 9),
        MinimalStep::Ask
    ));
    assert!(matches!(
        take_identify_response(&mut data, Some((0, vec![9])), 0, 9),
        MinimalStep::Ask
    ));
    assert_eq!(data, vec![1, 2]);
    assert!(matches!(
        take_identify_response(&mut data, Some((2, vec![])), 0, 9),
        MinimalStep::Done
    ));
    match take_identify_response(&mut data, Some((2, vec![3])), 9, 9) {
        MinimalStep::Failed(TransportError::Parse(s)) => {
            assert_eq!(s, "identify exceeded 15s timeout");
        }
        _ => panic!("the time is over"),
    }
    match take_identify_response(&mut data, None, 9, 9) {
        MinimalStep::Failed(TransportError::Parse(s)) => {
            assert!(s.starts_with("identify timed out"));
        }
        _ => panic!("nothing came"),
    }
    assert_eq!(attempt_deadline(10, 20), 20);
    assert_eq!(attempt_deadline(10, u64::MAX), 150_000_010);
}
