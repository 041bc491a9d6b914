//! Tests of the passthrough queues.

use kalico_host_rt::passthrough_queue::command_queue::CommandQueue;
use kalico_host_rt::passthrough_queue::config_stage::{ConfigStage, ConfigStagePhase};
use kalico_host_rt::passthrough_queue::debug_log::DebugLog;
use kalico_host_rt::passthrough_queue::entry::{
    NotifyId, PassthroughEntry, BACKGROUND_PRIORITY_CLOCK,
};
use kalico_host_rt::passthrough_queue::mcu_state::{CommandQueueId, McuState, PushError};
use kalico_host_rt::passthrough_queue::notify::{NotifyResponse, NotifyTable};
use kalico_host_rt::passthrough_queue::receive_window::ReceiveWindow;
use kalico_host_rt::passthrough_queue::router::{McuHandle, PassthroughRouter, RouterError};
use kalico_host_rt::passthrough_queue::stats::{PassthroughStats, StatsCounters};

#[test]
fn config_cmds_drain_before_init_cmds() {
    let mut cs = ConfigStage::new();
    cs.add_config_cmd(vec![0x01]);
    cs.add_config_cmd(vec![0x02]);
    cs.add_init_cmd(vec![0x0A]);
    cs.add_init_cmd(vec![0x0B]);

    cs.begin_config_send();

    assert_eq!(cs.next_config_entry(), Some(vec![0x01]));
    assert_eq!(cs.next_config_entry(), Some(vec![0x02]));
    // Now init commands.
    assert_eq!(cs.next_config_entry(), Some(vec![0x0A]));
    assert_eq!(cs.next_config_entry(), Some(vec![0x0B]));
    // Done.
    assert_eq!(cs.next_config_entry(), None);
    assert_eq!(cs.phase(), ConfigStagePhase::Runtime);
}

#[test]
fn begin_config_send_transitions_correctly() {
    let mut cs = ConfigStage::new();
    assert_eq!(cs.phase(), ConfigStagePhase::Collecting);

    cs.begin_config_send();
    assert_eq!(cs.phase(), ConfigStagePhase::SendingConfig);

    // With no commands, immediately transitions through to Runtime.
    assert_eq!(cs.next_config_entry(), None);
    assert_eq!(cs.phase(), ConfigStagePhase::Runtime);
}

#[test]
fn cannot_add_commands_after_begin_config_send() {
    let mut cs = ConfigStage::new();
    assert!(cs.add_config_cmd(vec![0x01]));
    assert!(cs.add_init_cmd(vec![0x02]));
    assert!(cs.add_restart_cmd(vec![0x03]));

    cs.begin_config_send();

    assert!(!cs.add_config_cmd(vec![0x04]));
    assert!(!cs.add_init_cmd(vec![0x05]));
    assert!(!cs.add_restart_cmd(vec![0x06]));
}

#[test]
fn restart_cmds_are_stored_and_retrievable() {
    let mut cs = ConfigStage::new();
    cs.add_restart_cmd(vec![0xAA]);
    cs.add_restart_cmd(vec![0xBB]);

    assert_eq!(cs.restart_cmds().len(), 2);
    assert_eq!(cs.restart_cmds()[0], vec![0xAA]);
    assert_eq!(cs.restart_cmds()[1], vec![0xBB]);
}

#[test]
fn next_config_entry_returns_none_during_collecting() {
    let mut cs = ConfigStage::new();
    cs.add_config_cmd(vec![0x01]);
    // Cannot drain without begin_config_send.
    assert_eq!(cs.next_config_entry(), None);
}

#[test]
fn entry_holds_bytes_and_clocks() {
    let entry = PassthroughEntry::new(
        vec![0xAA, 0xBB],
        100,
        200,
        NotifyId::new(42),
    );
    assert_eq!(entry.bytes(), &[0xAA, 0xBB]);
    assert_eq!(entry.min_clock(), 100);
    assert_eq!(entry.req_clock(), 200);
    assert_eq!(entry.notify_id(), NotifyId::new(42));
}

#[test]
fn notify_id_distinct() {
    let none = NotifyId::none();
    let id1 = NotifyId::new(1);
    let id2 = NotifyId::new(2);

    assert!(none.is_none());
    assert!(!id1.is_none());
    assert_ne!(id1, id2);
    assert_eq!(none.raw(), 0);
    assert_eq!(id1.raw(), 1);
}

#[test]
fn default_stats_are_zero() {
    let s = PassthroughStats::default();
    assert_eq!(s.bytes_write, 0);
    assert_eq!(s.bytes_read, 0);
    assert_eq!(s.send_seq, 0);
}

#[test]
fn counters_snapshot_round_trips() {
    let mut c = StatsCounters::new();
    c.bytes_write = 100;
    c.bytes_read = 50;
    c.send_seq = 42;

    let snap = c.snapshot();
    assert_eq!(snap.bytes_write, 100);
    assert_eq!(snap.bytes_read, 50);
    assert_eq!(snap.send_seq, 42);
}

fn entry(b: u8, min_clock: u64, req_clock: u64) -> PassthroughEntry {
    PassthroughEntry::new(vec![b], min_clock, req_clock, NotifyId::none())
}

#[test]
fn entries_wait_for_their_clock_and_leave_lowest_first() {
    let mut q = CommandQueue::new();
    q.push(entry(1, 10, 50));
    q.push(entry(2, 0, 60));
    q.push(entry(3, 20, 40));
    q.promote(0);
    assert_eq!(q.peek_ready_req_clock(), Some(60));
    assert_eq!((q.ready_bytes(), q.upcoming_bytes()), (1, 2));
    q.promote(20);
    assert_eq!((q.ready_bytes(), q.upcoming_bytes()), (3, 0));
    let order: Vec<u8> =
        std::iter::from_fn(|| q.pop_ready()).map(|e| e.bytes()[0]).collect();
    assert_eq!(order, vec![3, 1, 2]);
    assert!(q.is_ready_empty());
}

#[test]
fn equal_clocks_leave_in_the_order_of_arrival() {
    let mut q = CommandQueue::default();
    for b in [5, 4, 3] {
        q.push(entry(b, 0, 7));
    }
    q.promote(0);
    let order: Vec<u8> =
        std::iter::from_fn(|| q.pop_ready()).map(|e| e.bytes()[0]).collect();
    assert_eq!(order, vec![5, 4, 3]);
}

#[test]
fn background_entries_are_told_apart() {
    let mut q = CommandQueue::new();
    assert!(!q.has_only_background_ready());
    let e = entry(1, 0, BACKGROUND_PRIORITY_CLOCK);
    assert!(e.is_background_priority());
    q.push(e);
    q.promote(0);
    assert!(q.has_only_background_ready());
    assert!(!q.has_non_background_ready());
    q.push(entry(2, 0, 5));
    q.promote(0);
    assert!(q.has_non_background_ready());
    assert!(!q.has_only_background_ready());
}

#[test]
fn queues_of_a_controller_share_the_order() {
    let mut m = McuState::new();
    assert!(m.has_room());
    let a = m.alloc_command_queue();
    let b = m.alloc_command_queue();
    assert_ne!(a, b);
    m.push(a, entry(1, 5, 30)).unwrap();
    m.push(b, entry(2, 5, 20)).unwrap();
    m.push(a, entry(3, 5, 10)).unwrap();
    assert_eq!(m.total_upcoming_bytes(), 3);
    assert!(m.is_all_ready_empty());
    m.promote_all(5);
    assert_eq!(m.total_ready_bytes(), 3);
    assert_eq!(m.peek_next_req_clock(), Some(10));
    let order: Vec<u8> =
        std::iter::from_fn(|| m.pop_next()).map(|e| e.bytes()[0]).collect();
    assert_eq!(order, vec![3, 2, 1]);
    let bad = CommandQueueId::from_raw(99);
    let e = m.push(bad, entry(1, 0, 0)).unwrap_err();
    assert_eq!(e, PushError::UnknownQueue(bad));
    assert_eq!(e.to_text(), "unknown command queue id 99");
}

#[test]
fn a_response_is_notified_once() {
    let mut t = NotifyTable::new();
    let id = t.register();
    assert_eq!(t.pending_count(), 1);
    let response = || NotifyResponse { bytes: vec![1], sent_time: 2, receive_time: 3 };
    assert_eq!(t.dispatch(id, response()).unwrap().receive_time, 3);
    assert!(t.dispatch(id, response()).is_none());
    assert_eq!(t.pending_count(), 0);
}

#[test]
fn the_receive_window_closes_and_opens() {
    let mut w = ReceiveWindow::with_limits(2, 100);
    assert!(w.can_emit());
    w.record_emit(10);
    w.record_emit(10);
    assert!(!w.can_emit());
    w.record_ack(10);
    assert!(w.can_emit());
    assert_eq!(w.send_seq(), 3);
    assert_eq!(w.receive_seq(), 2);
}

#[test]
fn the_log_keeps_the_newest() {
    let mut l = DebugLog::new();
    for i in 0..150u64 {
        l.record_sent(i, vec![], i);
        l.record_received(i, vec![], i);
    }
    assert_eq!(l.sent_count(), 100);
    assert_eq!(l.received_count(), 100);
    let (sent, received) = l.extract_old();
    assert_eq!(sent[0].seq, 50);
    assert_eq!(received[99].seq, 149);
    assert_eq!(l.sent_count(), 0);
}

#[test]
fn the_router_keeps_controllers_apart() {
    let mut r = PassthroughRouter::new();
    assert!(r.has_room());
    let a = r.claim_mcu("a");
    let b = r.claim_mcu("b");
    assert_eq!(r.mcu_handles(), vec![a, b]);
    let q = r.alloc_command_queue(a).unwrap();
    r.push(a, q, entry(7, 0, 0)).unwrap();
    r.promote_all(a, 0).unwrap();
    assert!(r.pop_next_for_emission(b, 1).unwrap().is_none());
    assert_eq!(r.pop_next_for_emission(a, 1).unwrap().unwrap().bytes(), &[7]);
    let s = r.get_stats(a).unwrap();
    assert_eq!(s.bytes_write, 1);
    assert_eq!(s.send_seq, 1);
    let (sent, received) = r.extract_old(a).unwrap();
    assert_eq!(sent.len(), 1);
    assert_eq!(sent[0].timestamp, 1);
    assert!(received.is_empty());
    r.release_mcu(a);
    assert_eq!(r.mcu_handles(), vec![b]);
    assert_eq!(r.record_ack(a, 1), Err(RouterError::UnknownMcu(a)));
    assert_eq!(RouterError::UnknownMcu(McuHandle::from_raw(3)).to_text(), "unknown MCU handle 3");
}

#[test]
fn the_router_notifies_and_configures() {
    let mut r = PassthroughRouter::new();
    let m = r.claim_mcu("m");
    let id = r.register_notify(m).unwrap();
    let got = r.dispatch_response(m, id, vec![1, 2], 9).unwrap().unwrap();
    assert_eq!(got.bytes, vec![1, 2]);
    assert_eq!(got.receive_time, 9);
    assert!(r.dispatch_response(m, id, vec![1, 2], 9).unwrap().is_none());
    assert!(r.add_config_cmd(m, vec![1]).unwrap());
    assert!(r.add_init_cmd(m, vec![2]).unwrap());
    assert!(r.add_restart_cmd(m, vec![3]).unwrap());
    r.begin_config_phase(m).unwrap();
    assert_eq!(r.config_phase(m).unwrap(), ConfigStagePhase::SendingConfig);
    assert_eq!(r.next_config_entry(m).unwrap(), Some(vec![1]));
    assert_eq!(r.next_config_entry(m).unwrap(), Some(vec![2]));
    assert_eq!(r.next_config_entry(m).unwrap(), None);
    assert_eq!(r.config_phase(m).unwrap(), ConfigStagePhase::Runtime);
}

#[test]
fn flush_callbacks_fire_when_all_is_sent() {
    let mut r = PassthroughRouter::new();
    let m = r.claim_mcu("m");
    let q = r.alloc_command_queue(m).unwrap();
    r.push(m, q, entry(1, 0, 0)).unwrap();
    r.promote_all(m, 0).unwrap();
    r.register_flush_callback(m, 5).unwrap();
    assert!(r.check_flush(m).unwrap().is_empty());
    r.pop_next_for_emission(m, 0).unwrap();
    assert_eq!(r.check_flush(m).unwrap(), vec![5]);
    assert!(r.check_flush(m).unwrap().is_empty());
}
