//! What queued messages can rely on.

use crate::passthrough_queue::command_queue::{
    inserted_all, key, lemma_inserted, lemma_place, ordered, place, promoted, pushed, total_bytes,
    By, QueueView,
};
use crate::passthrough_queue::config_stage::ConfigStagePhase;
use crate::passthrough_queue::entry::EntryView;
use crate::passthrough_queue::mcu_state::{
    any_urgent, best, lemma_best, may_go, ready_total, state_popped, upcoming_total, McuStateView,
};
use crate::passthrough_queue::notify::{notify_registered, NotifyTableView};
use crate::passthrough_queue::receive_window::window_open;
use crate::passthrough_queue::router::{
    answered, emitted, flushed, fresh_record, nothing_ready, projected, stats_of, ClockEst, RecordView,
    RouterView,
};
use vstd::multiset::Multiset;
use vstd::prelude::*;

verus! {

/// All messages of a queue, ready or not.
pub open spec fn held(q: QueueView) -> Multiset<EntryView> {
    q.ready.to_multiset().add(q.upcoming.to_multiset())
}

proof fn lemma_insert_multiset(s: Seq<EntryView>, i: int, e: EntryView)
    requires
        0 <= i <= s.len(),
    ensures
        s.insert(i, e).to_multiset() == s.to_multiset().insert(e),
{
    let t = s.insert(i, e);
    assert(t.remove(i) =~= s);
    t.to_multiset_ensures();
    assert(t[i] == e);
    assert(t.contains(e));
    assert(t.to_multiset().remove(e).insert(e) =~= t.to_multiset());
}

/// A message that is queued is held once more and nothing else changes: it is
/// ready if its clock has come, and waits otherwise.
pub proof fn law_pushed_is_held(q: QueueView, e: EntryView)
    requires
        ordered(q.ready, By::Req),
        ordered(q.upcoming, By::Min),
    ensures
        held(pushed(q, e)) == held(q).insert(e),
        e.min_clock <= q.ack_clock ==> pushed(q, e).ready.contains(e) && pushed(q, e).upcoming
            == q.upcoming,
        e.min_clock > q.ack_clock ==> pushed(q, e).upcoming.contains(e) && pushed(q, e).ready
            == q.ready,
{
    lemma_place(q.ready, By::Req, key(e, By::Req));
    lemma_place(q.upcoming, By::Min, key(e, By::Min));
    let i = place(q.ready, By::Req, key(e, By::Req)) as int;
    let j = place(q.upcoming, By::Min, key(e, By::Min)) as int;
    lemma_insert_multiset(q.ready, i, e);
    lemma_insert_multiset(q.upcoming, j, e);
    assert(q.ready.insert(i, e)[i] == e);
    assert(q.upcoming.insert(j, e)[j] == e);
    assert(held(pushed(q, e)) =~= held(q).insert(e));
}

/// Messages that are due at the same clock keep the order in which they became
/// ready: a new one stands behind all that are due no later, and before all
/// that are due later.
pub proof fn law_same_clock_keeps_order(q: QueueView, e: EntryView, i: int)
    requires
        ordered(q.ready, By::Req),
        e.min_clock <= q.ack_clock,
        0 <= i < q.ready.len(),
    ensures
        ({
            let t = pushed(q, e).ready;
            let p = choose|p: int|
                0 <= p < t.len() && t.remove(p) == q.ready && #[trigger] t[p] == e && forall|k: int|
                    0 <= k < t.len() ==> (k < p ==> (#[trigger] t[k]).req_clock <= e.req_clock) && (k
                        > p ==> t[k].req_clock > e.req_clock);
            &&& 0 <= p < t.len()
            &&& t[p] == e
            &&& t.remove(p) == q.ready
            &&& q.ready[i].req_clock <= e.req_clock ==> i < p
            &&& q.ready[i].req_clock > e.req_clock ==> p <= i
        }),
{
    lemma_place(q.ready, By::Req, key(e, By::Req));
    let n = place(q.ready, By::Req, key(e, By::Req)) as int;
    let s = q.ready;
    let t = s.insert(n, e);
    assert(t.remove(n) =~= s);
    assert forall|k: int| 0 <= k < t.len() implies (k < n ==> (#[trigger] t[k]).req_clock
        <= e.req_clock) && (k > n ==> t[k].req_clock > e.req_clock) by {
        if k < n {
            assert(t[k] == s[k]);
        } else if k > n {
            assert(t[k] == s[k - 1]);
        }
    }
    let p = choose|p: int|
        0 <= p < t.len() && t.remove(p) == s && #[trigger] t[p] == e && forall|k: int|
            0 <= k < t.len() ==> (k < p ==> (#[trigger] t[k]).req_clock <= e.req_clock) && (k > p
                ==> t[k].req_clock > e.req_clock);
    assert(t[n] == e);
    assert(t.remove(p)[i] == s[i]);
    if i < p {
        assert(t[i] == s[i]);
    } else {
        assert(t[i + 1] == s[i]);
    }
}

proof fn lemma_inserted_all(s: Seq<EntryView>, es: Seq<EntryView>)
    requires
        ordered(s, By::Req),
    ensures
        ordered(inserted_all(s, By::Req, es), By::Req),
        inserted_all(s, By::Req, es).to_multiset() == s.to_multiset().add(es.to_multiset()),
    decreases es.len(),
{
    if es.len() == 0 {
        es.to_multiset_ensures();
        assert(es.to_multiset() =~= Multiset::<EntryView>::empty());
        assert(s.to_multiset().add(es.to_multiset()) =~= s.to_multiset());
    } else {
        let before = es.drop_last();
        lemma_inserted_all(s, before);
        let t = inserted_all(s, By::Req, before);
        lemma_inserted(t, By::Req, es.last());
        lemma_place(t, By::Req, key(es.last(), By::Req));
        lemma_insert_multiset(t, place(t, By::Req, key(es.last(), By::Req)) as int, es.last());
        before.to_multiset_ensures();
        assert(before.push(es.last()) =~= es);
        assert(inserted_all(s, By::Req, es).to_multiset() =~= s.to_multiset().add(
            es.to_multiset(),
        ));
    }
}

proof fn lemma_parts_multiset(s: Seq<EntryView>, n: int)
    requires
        0 <= n <= s.len(),
    ensures
        s.take(n).to_multiset().add(s.skip(n).to_multiset()) == s.to_multiset(),
{
    vstd::seq_lib::lemma_multiset_commutative(s.take(n), s.skip(n));
    assert(s.take(n) + s.skip(n) =~= s);
}

/// When the clock moves on, every message whose clock has come becomes ready,
/// and no other does; none is lost and none comes twice.
pub proof fn law_clock_makes_ready(q: QueueView, clock: u64, e: EntryView)
    requires
        ordered(q.ready, By::Req),
        ordered(q.upcoming, By::Min),
    ensures
        held(promoted(q, clock)) == held(q),
        promoted(q, clock).upcoming.contains(e) ==> q.upcoming.contains(e) && e.min_clock > clock,
        q.upcoming.contains(e) && e.min_clock <= clock ==> promoted(q, clock).ready.contains(e),
        ordered(promoted(q, clock).ready, By::Req),
        promoted(q, clock).ack_clock == clock,
{
    lemma_place(q.upcoming, By::Min, clock);
    let n = place(q.upcoming, By::Min, clock) as int;
    let come = q.upcoming.take(n);
    let left = q.upcoming.skip(n);
    lemma_inserted_all(q.ready, come);
    lemma_parts_multiset(q.upcoming, n);
    let p = promoted(q, clock);
    assert(held(p) =~= held(q));
    if left.contains(e) {
        let i = left.index_of(e);
        assert(q.upcoming[n + i] == e);
    }
    if q.upcoming.contains(e) && e.min_clock <= clock {
        let i = q.upcoming.index_of(e);
        assert(q.upcoming[i] == e);
        assert(key(q.upcoming[i], By::Min) <= clock);
        assert(come[i] == e);
        come.to_multiset_ensures();
        p.ready.to_multiset_ensures();
        assert(come.contains(e));
        assert(come.to_multiset().count(e) > 0);
        assert(p.ready.to_multiset().count(e) > 0);
    }
}

/// Of several queues whose first messages are due at the same clock, the one
/// that was allocated first is served first; and the message that goes leaves
/// its queue, while all others stay.
pub proof fn law_first_queue_first(s: McuStateView, i: int)
    requires
        state_popped(s).0 is Some,
        0 <= i < s.queues.len(),
    ensures
        ({
            let e = state_popped(s).0->0;
            let t = state_popped(s).1;
            let b = best(s.queues, any_urgent(s.queues))->0;
            &&& 0 <= b < s.queues.len()
            &&& s.queues[b].ready[0] == e
            &&& s.queues[i].ready.len() > 0 && s.queues[i].ready[0].req_clock == e.req_clock ==> b
                <= i
            &&& i != b ==> t.queues[i] == s.queues[i]
            &&& t.queues[b].ready == s.queues[b].ready.skip(1)
            &&& t.queues[b].upcoming == s.queues[b].upcoming
            &&& t.ids == s.ids
        }),
{
    lemma_best(s.queues, any_urgent(s.queues));
    let b = best(s.queues, any_urgent(s.queues))->0;
    assert(may_go(s.queues[b], any_urgent(s.queues)));
    if s.queues[i].ready.len() > 0 && s.queues[i].ready[0].req_clock
        == s.queues[b].ready[0].req_clock {
        assert(may_go(s.queues[i], any_urgent(s.queues)));
    }
}

/// While the receive window is closed nothing is sent, and nothing changes.
pub proof fn law_closed_window_sends_nothing(r: RecordView, now: u64)
    requires
        !window_open(r.window),
    ensures
        emitted(r, now) == (None::<EntryView>, r),
{
}

/// A message that is sent counts with its bytes, in the window and in the
/// statistics, and as one block.
pub proof fn law_sent_bytes_count(r: RecordView, now: u64)
    requires
        emitted(r, now).0 is Some,
        emitted(r, now).0->0.bytes.len() <= 64,
        r.window.need_ack_bytes + 64 <= u64::MAX,
        r.stats.bytes_write + 64 <= u64::MAX,
        r.window.send_seq < u64::MAX,
    ensures
        ({
            let e = emitted(r, now).0->0;
            let w = emitted(r, now).1;
            &&& w.window.need_ack_bytes == r.window.need_ack_bytes + e.bytes.len()
            &&& w.window.send_seq == r.window.send_seq + 1
            &&& w.stats.bytes_write == r.stats.bytes_write + e.bytes.len()
            &&& w.stats.bytes_read == r.stats.bytes_read
            &&& w.window.receive_seq == r.window.receive_seq
        }),
{
}

/// A response is handed out with the time at which its message was sent and the
/// time at which it came, with its bytes, and once only.
pub proof fn law_response_carries_times(
    r: RecordView,
    sent: u64,
    bytes: Seq<u8>,
    received: u64,
    again: u64,
)
    requires
        emitted(r, sent).0 is Some,
        emitted(r, sent).0->0.notify_id.0 != 0,
        r.notify_table.pending.contains(emitted(r, sent).0->0.notify_id.0),
    ensures
        ({
            let id = emitted(r, sent).0->0.notify_id;
            let (got, after) = answered(emitted(r, sent).1, id, bytes, received);
            &&& got matches Some(a) && a.bytes == bytes && a.sent_time == sent && a.receive_time
                == received
            &&& answered(after, id, bytes, again).0 is None
        }),
{
}

/// A new identifier is not zero and asks for a response that is then pending,
/// and those that were pending stay so.
pub proof fn law_new_identifier_is_pending(t: NotifyTableView, id: u64)
    requires
        0 < t.next_id < u64::MAX,
        forall|k: u64| t.pending.contains(k) ==> k < t.next_id,
    ensures
        ({
            let u = notify_registered(t);
            &&& !t.pending.contains(t.next_id)
            &&& u.pending.contains(t.next_id)
            &&& t.pending.contains(id) ==> u.pending.contains(id)
            &&& 0 < u.next_id
            &&& forall|k: u64| u.pending.contains(k) ==> k < u.next_id
        }),
{
}

/// The callbacks for empty queues are called once after messages went out and
/// none is ready any more, all of them, in the order in which they came; not
/// while one is ready, and not a second time.
pub proof fn law_flush_once(r: RecordView, now: u64)
    requires
        emitted(r, now).0 is Some,
    ensures
        ({
            let w = emitted(r, now).1;
            let (called, after) = flushed(w);
            &&& called == if nothing_ready(w.state) {
                r.flush_callbacks
            } else {
                Seq::empty()
            }
            &&& nothing_ready(w.state) ==> flushed(after).0.len() == 0
        }),
{
}

/// What is changed for one controller changes nothing for another.
pub proof fn law_controllers_are_apart(
    v: RouterView,
    a: crate::passthrough_queue::router::McuHandle,
    b: crate::passthrough_queue::router::McuHandle,
    r: RecordView,
)
    requires
        v.handles.len() == v.records.len(),
        v.knows(a),
        v.knows(b),
        a != b,
    ensures
        v.with(a, r).record(a) == r,
        v.with(a, r).record(b) == v.record(b),
{
    let i = v.handles.index_of(a.0);
    let j = v.handles.index_of(b.0);
    assert(v.handles[i] == a.0);
    assert(v.handles[j] == b.0);
}

/// A clock of known frequency runs on from its last reading: later by as many
/// ticks as have passed.
pub proof fn law_clock_runs_on(c: ClockEst, ticks: u64)
    requires
        c.freq != 0,
        c.freq != 0x8000_0000_0000_0000,
        c.last_clock + ticks <= u64::MAX,
    ensures
        projected(c, ticks) == c.last_clock + ticks,
{
}

/// The bytes of entries add up: an entry more adds its own, wherever it is put.
pub proof fn law_bytes_add_up(a: Seq<EntryView>, e: EntryView, b: Seq<EntryView>)
    ensures
        total_bytes(a.push(e) + b) == total_bytes(a + b) + e.bytes.len(),
        total_bytes(Seq::empty()) == 0,
    decreases b.len(),
{
    let s = a.push(e) + b;
    if b.len() == 0 {
        assert(s.drop_last() =~= a);
        assert(a + b =~= a);
    } else {
        let c = b.drop_last();
        law_bytes_add_up(a, e, c);
        assert(s.drop_last() =~= a.push(e) + c);
        assert((a + b).drop_last() =~= a + c);
    }
}

/// The statistics of a controller count what is ready and what waits in all of
/// its queues, beside the counters.
pub proof fn law_statistics_count_queues(r: RecordView, q: QueueView)
    requires
        ready_total(r.state.queues) + total_bytes(q.ready) <= u64::MAX,
        upcoming_total(r.state.queues) + total_bytes(q.upcoming) <= u64::MAX,
    ensures
        ({
            let more = RecordView {
                state: McuStateView { queues: r.state.queues.push(q), ..r.state },
                ..r
            };
            let s = stats_of(r);
            let t = stats_of(more);
            &&& t.ready_bytes == s.ready_bytes + total_bytes(q.ready)
            &&& t.upcoming_bytes == s.upcoming_bytes + total_bytes(q.upcoming)
            &&& s.bytes_write == r.stats.bytes_write && s.bytes_read == r.stats.bytes_read
            &&& s.send_seq == r.stats.send_seq && s.receive_seq == r.stats.receive_seq
        }),
{
    assert(r.state.queues.push(q).drop_last() =~= r.state.queues);
}

/// A controller that was just claimed has nothing queued, sent or pending, room
/// for twelve messages and for 192 bytes, collects its configuration, and gives
/// out one as its first identifier, so that zero stands for none.
pub proof fn law_fresh_controller(label: Seq<char>)
    ensures
        ({
            let r = fresh_record(label);
            &&& r.label == label
            &&& r.state.queues.len() == 0 && r.sent_times == Map::<u64, u64>::empty()
            &&& r.notify_table.next_id == 1 && r.notify_table.pending == Set::<u64>::empty()
            &&& r.window.max_pending_blocks == 12 && r.window.receive_window == 192
            &&& r.window.need_ack_bytes == 0 && window_open(r.window)
            &&& r.config_stage.phase == ConfigStagePhase::Collecting
            &&& r.config_stage.config_cmds.len() == 0 && r.config_stage.init_cmds.len() == 0
            &&& !r.was_non_empty && r.flush_callbacks.len() == 0
            &&& r.clock.freq == 0 && projected(r.clock, 5) == 0
            &&& r.stats.bytes_write == 0 && r.stats.bytes_read == 0
            &&& r.debug_log.sent.len() == 0 && r.debug_log.received.len() == 0
        }),
{
}

} // verus!
