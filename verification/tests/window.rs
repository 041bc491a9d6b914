//! Tests of the window of unacknowledged frames and of the waiting calls.

use kalico_host_rt::host_io::window::{AwaitEntry, AwaitingResponse, UnackedEntry, UnackedWindow};
use kalico_host_rt::transport::TransportError;

const SEC: u64 = 1_000_000_000;

fn entry(seq: u64) -> UnackedEntry {
    UnackedEntry {
        seq,
        frame_bytes: vec![],
        sent_at: 0,
        retry_count: 0,
    }
}

#[test]
fn pop_acked_strict_less_than() {
    let mut w = UnackedWindow::default();
    w.push(entry(1));
    w.push(entry(2));
    w.push(entry(3));
    // ack rseq=2 → pops only seq=1 (strict <).
    let popped = w.pop_acked(2);
    assert_eq!(popped.len(), 1);
    assert_eq!(popped[0].seq, 1);
    assert_eq!(w.len(), 2);
    assert_eq!(w.front().unwrap().seq, 2);
}

fn make_entry(call_id: u64, name: &str, seq: u64, deadline: u64) -> AwaitEntry {
    AwaitEntry {
        call_id,
        seq,
        expected_response_name: name.to_string(),
        submitted_at: 0,
        deadline,
        abandoned: false,
    }
}

#[test]
fn fifo_match_finds_oldest() {
    let mut a = AwaitingResponse::default();
    a.push(make_entry(1, "rsp", 1, 60 * SEC)).unwrap();
    a.push(make_entry(2, "rsp", 2, 60 * SEC)).unwrap();
    assert_eq!(a.find_match("rsp"), Some(0)); // oldest first
}

#[test]
fn fifo_skips_abandoned() {
    let mut a = AwaitingResponse::default();
    a.push(make_entry(1, "rsp", 1, 60 * SEC)).unwrap();
    a.push(make_entry(2, "rsp", 2, 60 * SEC)).unwrap();
    a.mark_abandoned(1);
    assert_eq!(a.find_match("rsp"), Some(1)); // skips abandoned 0
}

#[test]
fn evict_expired_returns_past_deadline() {
    let mut a = AwaitingResponse::default();
    let now = SEC;
    let past = now - SEC / 10;
    let future = now + 60 * SEC;
    a.push(make_entry(1, "rsp", 1, past)).unwrap();
    a.push(make_entry(2, "rsp", 2, future)).unwrap();
    let evicted = a.evict_expired(now);
    assert_eq!(evicted.len(), 1);
    assert_eq!(evicted[0].call_id, 1);
    assert_eq!(a.len(), 1);
}

#[test]
fn window_is_full_at_its_limit() {
    let mut w = UnackedWindow::new();
    assert!(w.is_empty());
    assert!(w.front().is_none());
    let mut n = 0;
    while !w.is_full() {
        n += 1;
        w.push(entry(n));
    }
    assert_eq!(n, 12);
    assert_eq!(w.iter().len(), 12);
    w.iter_mut(3).retry_count = 5;
    assert_eq!(w.iter()[3].retry_count, 5);
    w.clear();
    assert!(w.is_empty());
}

#[test]
fn too_many_waiting_calls_are_refused() {
    let mut a = AwaitingResponse::new();
    let mut n = 0;
    loop {
        match a.push(make_entry(n, "r", n, 1)) {
            Ok(()) => n += 1,
            Err(e) => {
                match e {
                    TransportError::Parse(s) => {
                        assert_eq!(s, "AwaitingResponse defensive ceiling exceeded");
                    }
                    _ => panic!("too many"),
                }
                break;
            }
        }
    }
    assert_eq!(n, 1024);
    let gone = a.remove(0);
    assert_eq!(gone.call_id, 0);
    assert_eq!(a.iter()[0].call_id, 1);
    assert_eq!(a.drain_all().len() as u64, n - 1);
    assert_eq!(a.len(), 0);
}
