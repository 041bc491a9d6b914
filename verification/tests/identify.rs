//! Tests of the identify handshake.

use kalico_host_rt::host_io::identify::{
    build_parser_from_identify, decode_bytes, decode_identify_response, identify_json,
    IdentifyAction, IdentifyEvent, IdentifyPoll, IdentifySeqState, IdentifySession,
};
use kalico_host_rt::host_io::parser::DataDictionary;
use kalico_host_rt::host_io::reactor_types::Frame;
use kalico_host_rt::host_io::vlq::{decode_vlq, encode_vlq};
use kalico_host_rt::host_io::wire::{build_frame, MESSAGE_SYNC};
use kalico_host_rt::ordered_map::OrderedMap;
use kalico_host_rt::transport::TransportError;
use std::io::Write;

const MS: u64 = 1_000_000;

/// A firmware in memory that serves a dictionary.
struct Firmware {
    blob: Vec<u8>,
    next: u8,
    /// How many requests it does not hear.
    deaf: usize,
    out: Vec<Frame>,
    written: Vec<Vec<u8>>,
}

impl Firmware {
    fn new(blob: &[u8], next: u8) -> Self {
        Firmware { blob: blob.to_vec(), next, deaf: 0, out: Vec::new(), written: Vec::new() }
    }

    fn hear(&mut self, frame: &[u8]) {
        self.written.push(frame.to_vec());
        if frame.iter().all(|b| *b == MESSAGE_SYNC) {
            return;
        }
        if self.deaf > 0 {
            self.deaf -= 1;
            return;
        }
        if frame[1] & 0x0F != self.next {
            self.out.push(Frame::Klipper(build_frame(&[], self.next)));
            return;
        }
        self.next = (self.next + 1) & 0x0F;
        assert_eq!(frame[2], 1, "the number of the request");
        let (offset, n) = decode_vlq(&frame[3..]).unwrap();
        let (count, _) = decode_vlq(&frame[3 + n..]).unwrap();
        let from = (offset as usize).min(self.blob.len());
        let to = (from + count as usize).min(self.blob.len());
        let mut body = vec![0];
        encode_vlq(&mut body, offset).unwrap();
        body.push((to - from) as u8);
        body.extend_from_slice(&self.blob[from..to]);
        self.out.push(Frame::Klipper(build_frame(&body, self.next)));
    }
}

/// Runs a handshake to its end.
fn run(fw: &mut Firmware, timeout: u64) -> Result<(Vec<u8>, IdentifySeqState), TransportError> {
    let mut now = 0;
    let mut s = IdentifySession::new(timeout);
    for _ in 0..100_000 {
        let event = match s.next_action() {
            IdentifyAction::Again => IdentifyEvent::Go,
            IdentifyAction::Write(b) => {
                fw.hear(&b);
                IdentifyEvent::Written(Ok(()))
            }
            IdentifyAction::Poll(until) => {
                if fw.out.is_empty() {
                    now = until.max(now);
                    IdentifyEvent::Polled(IdentifyPoll::Idle)
                } else {
                    now += MS;
                    IdentifyEvent::Polled(IdentifyPoll::Frames(std::mem::take(&mut fw.out)))
                }
            }
            IdentifyAction::Done | IdentifyAction::Failed => return s.outcome().unwrap(),
        };
        s.step(event, now);
    }
    panic!("the handshake does not end");
}

fn blob() -> Vec<u8> {
    (0..100u8).collect()
}

#[test]
fn the_dictionary_is_fetched_in_chunks() {
    let mut fw = Firmware::new(&blob(), 0);
    let (data, seq) = run(&mut fw, 15_000 * MS).unwrap();
    assert_eq!(data, blob());
    // 40 + 40 + 20 + nothing: four requests
    assert_eq!(seq, IdentifySeqState { next_send_seq_abs: 4, mcu_receive_seq_abs: 4 });
    assert_eq!(fw.written.len(), 5);
    assert_eq!(fw.written[0], vec![MESSAGE_SYNC; 70]);
    assert_eq!(fw.written[1], build_frame(&[1, 0, 40], 0));
    assert_eq!(fw.written[3], build_frame(&[1, 80, 40], 2));
}

#[test]
fn the_sequence_is_taken_over_from_a_refusal() {
    let mut fw = Firmware::new(&blob(), 11);
    let (data, seq) = run(&mut fw, 15_000 * MS).unwrap();
    assert_eq!(data, blob());
    assert_eq!(seq.next_send_seq_abs, 15);
}

#[test]
fn an_unheard_request_is_repeated_once() {
    let mut fw = Firmware::new(&blob(), 0);
    fw.deaf = 1;
    let (data, _) = run(&mut fw, 15_000 * MS).unwrap();
    assert_eq!(data, blob());
    assert_eq!(fw.written[1], fw.written[2]);
    let mut fw = Firmware::new(&blob(), 0);
    fw.deaf = 2;
    match run(&mut fw, 15_000 * MS) {
        Err(TransportError::Parse(s)) => {
            assert_eq!(s, "identify exceeded NAK-resync attempts for one chunk");
        }
        other => panic!("expected Parse, got {other:?}"),
    }
}

#[test]
fn the_handshake_ends_at_its_deadline() {
    let mut fw = Firmware::new(&blob(), 0);
    fw.deaf = 1;
    match run(&mut fw, 350 * MS) {
        Err(TransportError::Parse(s)) => {
            assert_eq!(s, "identify timed out (no firmware response)");
        }
        other => panic!("expected Parse, got {other:?}"),
    }
}

#[test]
fn a_stale_acknowledgement_changes_nothing() {
    let mut s = IdentifySession::new(u64::MAX);
    s.step(IdentifyEvent::Written(Ok(())), 0);
    s.step(IdentifyEvent::Polled(IdentifyPoll::Idle), 0);
    s.step(IdentifyEvent::Go, 0);
    s.step(IdentifyEvent::Written(Ok(())), 0);
    let stale = Frame::Klipper(build_frame(&[], 0));
    let last = Frame::Klipper(build_frame(&[0, 0, 0], 1));
    s.step(IdentifyEvent::Polled(IdentifyPoll::Frames(vec![stale, last])), 0);
    let (data, seq) = s.outcome().unwrap().unwrap();
    assert!(data.is_empty());
    assert_eq!(seq, IdentifySeqState { next_send_seq_abs: 1, mcu_receive_seq_abs: 1 });
}

#[test]
fn a_failed_read_or_write_ends_the_handshake() {
    let mut s = IdentifySession::new(u64::MAX);
    assert_eq!(s.data_len(), 0);
    s.step(IdentifyEvent::Written(Err("gone".into())), 0);
    assert!(matches!(s.outcome(), Some(Err(TransportError::Io(t))) if t == "gone"));
    let mut s = IdentifySession::new(u64::MAX);
    s.step(IdentifyEvent::Written(Ok(())), 0);
    s.step(IdentifyEvent::Polled(IdentifyPoll::Failed("lost".into())), 0);
    assert!(matches!(s.outcome(), Some(Err(TransportError::Io(t))) if t == "lost"));
    assert!(IdentifySession::new(1).outcome().is_none());
}

#[test]
fn identify_responses_are_read() {
    assert_eq!(decode_bytes(&[]), None);
    assert_eq!(decode_bytes(&[2, 1]), None);
    assert_eq!(decode_bytes(&[2, 1, 9, 8]), Some((vec![1, 9], 3)));
    let f = build_frame(&[0, 5, 1, 7], 3);
    assert_eq!(decode_identify_response(&f), Some((5, vec![7])));
    assert_eq!(decode_identify_response(&build_frame(&[1, 5, 1, 7], 3)), None);
    assert_eq!(decode_identify_response(&build_frame(&[], 3)), None);
}

#[test]
fn a_compressed_dictionary_is_inflated() {
    let text = "{\"version\": \"\u{e9}\"}";
    let mut z = flate2::write::ZlibEncoder::new(Vec::new(), flate2::Compression::default());
    z.write_all(text.as_bytes()).unwrap();
    let packed = z.finish().unwrap();
    assert_eq!(packed[0], 0x78);
    assert_eq!(identify_json(&packed).unwrap(), text);
    assert_eq!(identify_json(text.as_bytes()).unwrap(), text);
    assert_eq!(identify_json(&[]).unwrap(), "");
}

#[test]
fn a_broken_dictionary_is_refused_in_words() {
    match identify_json(&[0x78, 1, 2, 3]) {
        Err(TransportError::Parse(s)) => {
            assert!(s.starts_with("identify blob zlib inflate failed: "), "{s}");
        }
        other => panic!("expected Parse, got {other:?}"),
    }
    match identify_json(&[b'{', 0xFF]) {
        Err(TransportError::Parse(s)) => {
            assert_eq!(
                s,
                "identify blob is not valid UTF-8: invalid utf-8 sequence of 1 bytes from index 1"
            );
        }
        other => panic!("expected Parse, got {other:?}"),
    }
}

fn dict() -> DataDictionary {
    DataDictionary {
        commands: OrderedMap::new(),
        responses: OrderedMap::new(),
        output: OrderedMap::new(),
        enumerations: OrderedMap::new(),
        config: "{}".into(),
        version: "v".into(),
        app: "kalico".into(),
        build_versions: None,
        license: None,
    }
}

#[test]
fn a_dictionary_becomes_a_parser_or_an_error() {
    let mut d = dict();
    d.commands.insert("ping val=%u".into(), 42);
    assert!(d.check());
    let p = build_parser_from_identify(d).unwrap();
    assert!(p.encode("ping val=1").is_ok());
    let mut d = dict();
    d.commands.insert("a x=%u".into(), 5);
    d.responses.insert("b x=%u".into(), 5);
    match build_parser_from_identify(d) {
        Err(TransportError::Parse(s)) => {
            assert_eq!(s, "MsgProtoParser::from_dictionary failed: DuplicateMsgid(5)");
        }
        other => panic!("expected Parse, got {other:?}"),
    }
}

/// A response with a chunk of the dictionary.
fn chunk(offset: i64, bytes: &[u8], seq: u8) -> Frame {
    let mut body = vec![0];
    encode_vlq(&mut body, offset).unwrap();
    body.push(bytes.len() as u8);
    body.extend_from_slice(bytes);
    Frame::Klipper(build_frame(&body, seq))
}

#[test]
fn only_chunks_for_the_end_are_taken() {
    let mut replies = vec![
        chunk(0, &[1, 2, 3], 1),
        chunk(0, &[9, 9, 9], 2),
        chunk(3, &[4, 5], 3),
        chunk(7, &[9], 4),
        chunk(5, &[6], 5),
        chunk(6, &[], 6),
    ];
    replies.reverse();
    let mut now = 0;
    let mut out = Vec::new();
    let mut s = IdentifySession::new(15_000 * MS);
    for _ in 0..1_000 {
        let event = match s.next_action() {
            IdentifyAction::Again => IdentifyEvent::Go,
            IdentifyAction::Write(b) => {
                if b.iter().any(|x| *x != MESSAGE_SYNC) {
                    out.extend(replies.pop());
                }
                IdentifyEvent::Written(Ok(()))
            }
            IdentifyAction::Poll(until) => {
                if out.is_empty() {
                    now = until.max(now);
                    IdentifyEvent::Polled(IdentifyPoll::Idle)
                } else {
                    now += MS;
                    IdentifyEvent::Polled(IdentifyPoll::Frames(std::mem::take(&mut out)))
                }
            }
            IdentifyAction::Done => break,
            IdentifyAction::Failed => panic!("the handshake fails"),
        };
        s.step(event, now);
    }
    assert_eq!(s.outcome().unwrap().unwrap().0, vec![1, 2, 3, 4, 5, 6]);
}
