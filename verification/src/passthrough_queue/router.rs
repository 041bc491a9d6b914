//! The queues of all controllers.

use crate::ordered_map::{distinct, swap_removed, IdIndex};
use crate::passthrough_queue::config_stage::{
    fresh_stage, next_command, ConfigStage, ConfigStagePhase, ConfigStageView,
};
use crate::passthrough_queue::debug_log::{
    debug_views, logged, no_log, DebugEntry, DebugEntryView, DebugLog, DebugLogView,
};
use crate::passthrough_queue::entry::{EntryView, NotifyId, PassthroughEntry};
use crate::passthrough_queue::mcu_state::{
    empty_queue, no_queues, push_error_text, ready_total, state_popped, state_promoted,
    state_pushed, upcoming_total, CommandQueueId, McuState, McuStateView, PushError,
};
use crate::passthrough_queue::notify::{
    no_notify, notify_registered, NotifyResponse, NotifyResponseView, NotifyTable, NotifyTableView,
};
use crate::passthrough_queue::receive_window::{
    fresh_window, window_acked, window_emitted, window_open, wrapped_u64, ReceiveWindow,
    ReceiveWindowView, DEFAULT_MAX_PENDING_BLOCKS, DEFAULT_RECEIVE_WINDOW,
};
use crate::passthrough_queue::stats::{
    snapshot_of, zero_counters, PassthroughStats, StatsCounters,
};
use crate::text::{copy_text, decimal, push_decimal};
use std::collections::HashMap;
use vstd::prelude::*;

verus! {

broadcast use vstd::std_specs::hash::group_hash_axioms;

/// The number of a controller.
#[derive(Debug, Clone, Copy, PartialEq, Eq, Hash, Structural)]
pub struct McuHandle(pub u32);

impl McuHandle {
    /// The number.
    pub fn raw(&self) -> (r: u32)
        ensures
            r == self.0,
    {
        self.0
    }

    /// The handle with a given number.
    pub fn from_raw(raw: u32) -> (r: Self)
        ensures
            r == McuHandle(raw),
    {
        McuHandle(raw)
    }
}

/// Why the router refused.
#[derive(Debug, Clone, Copy, PartialEq, Eq, Structural)]
pub enum RouterError {
    UnknownMcu(McuHandle),
    Push(PushError),
    WindowFull,
}

/// A router error in words.
pub open spec fn router_error_text(e: RouterError) -> Seq<char> {
    match e {
        RouterError::UnknownMcu(h) => "unknown MCU handle "@ + decimal(h.0 as nat),
        RouterError::Push(p) => "push error: "@ + push_error_text(p),
        RouterError::WindowFull => "receive window full"@,
    }
}

impl RouterError {
    /// The error in words.
    pub fn to_text(&self) -> (r: String)
        ensures
            r@ == router_error_text(*self),
    {
        match self {
            RouterError::UnknownMcu(h) => {
                let mut s: String = copy_text("unknown MCU handle ");
                push_decimal(&mut s, h.0 as u64);
                s
            },
            RouterError::Push(p) => {
                let mut s: String = copy_text("push error: ");
                let t: String = p.to_text();
                s.append(t.as_str());
                s
            },
            RouterError::WindowFull => copy_text("receive window full"),
        }
    }
}

/// How a controller's clock runs against the host's: its frequency in Hz, the
/// host time in seconds of the last reading, and that reading. The first two
/// are the bits of a double.
#[derive(Debug, Clone, Copy, PartialEq, Eq, Structural)]
pub struct ClockEst {
    pub freq: u64,
    pub offset: u64,
    pub last_clock: u64,
}

/// The bits of a double that is minus zero.
pub const NEGATIVE_ZERO_BITS: u64 = 0x8000_0000_0000_0000;

/// The estimate of a clock of which nothing is known.
pub open spec fn no_clock_est() -> ClockEst {
    ClockEst { freq: 0, offset: 0, last_clock: 0 }
}

/// Whether a clock has a frequency.
pub open spec fn clock_known(c: ClockEst) -> bool {
    c.freq != 0 && c.freq != NEGATIVE_ZERO_BITS
}

/// What a clock reads some ticks after its last reading: zero while it has no
/// frequency.
pub open spec fn projected(c: ClockEst, ticks: u64) -> u64 {
    if clock_known(c) {
        wrapped_u64(c.last_clock + ticks)
    } else {
        0
    }
}

impl ClockEst {
    /// What the clock reads `ticks` after its last reading: zero while it has
    /// no frequency.
    pub fn projected(&self, ticks: u64) -> (r: u64)
        ensures
            r == projected(*self, ticks),
    {
        if self.freq == 0 || self.freq == NEGATIVE_ZERO_BITS {
            0
        } else {
            self.last_clock.wrapping_add(ticks)
        }
    }
}

/// What the router knows of one controller.
#[derive(Debug)]
struct McuRecord {
    label: String,
    state: McuState,
    notify_table: NotifyTable,
    window: ReceiveWindow,
    sent_times: HashMap<u64, u64>,
    config_stage: ConfigStage,
    clock: ClockEst,
    flush_callbacks: Vec<u64>,
    was_non_empty: bool,
    stats: StatsCounters,
    debug_log: DebugLog,
}

/// Model of what the router knows of one controller.
#[verifier::ext_equal]
pub struct RecordView {
    pub label: Seq<char>,
    pub state: McuStateView,
    pub notify_table: NotifyTableView,
    pub window: ReceiveWindowView,
    pub sent_times: Map<u64, u64>,
    pub config_stage: ConfigStageView,
    pub clock: ClockEst,
    pub flush_callbacks: Seq<u64>,
    pub was_non_empty: bool,
    pub stats: StatsCounters,
    pub debug_log: DebugLogView,
}

impl View for McuRecord {
    type V = RecordView;

    closed spec fn view(&self) -> RecordView {
        RecordView {
            label: self.label@,
            state: self.state@,
            notify_table: self.notify_table@,
            window: self.window@,
            sent_times: self.sent_times@,
            config_stage: self.config_stage@,
            clock: self.clock,
            flush_callbacks: self.flush_callbacks@,
            was_non_empty: self.was_non_empty,
            stats: self.stats,
            debug_log: self.debug_log@,
        }
    }
}

/// A controller that was just claimed.
pub open spec fn fresh_record(label: Seq<char>) -> RecordView {
    RecordView {
        label,
        state: no_queues(),
        notify_table: no_notify(),
        window: fresh_window(DEFAULT_MAX_PENDING_BLOCKS, DEFAULT_RECEIVE_WINDOW),
        sent_times: Map::empty(),
        config_stage: fresh_stage(),
        clock: no_clock_est(),
        flush_callbacks: Seq::empty(),
        was_non_empty: false,
        stats: zero_counters(),
        debug_log: no_log(),
    }
}

/// The entry that is sent next, and the controller behind it: nothing goes
/// while the receive window is closed.
pub open spec fn emitted(r: RecordView, now: u64) -> (Option<EntryView>, RecordView) {
    if !window_open(r.window) {
        (None, r)
    } else {
        match state_popped(r.state).0 {
            None => (None, r),
            Some(e) => {
                let n = e.bytes.len() as u64;
                let seq = wrapped_u64(r.stats.send_seq + 1);
                (
                    Some(e),
                    RecordView {
                        state: state_popped(r.state).1,
                        was_non_empty: true,
                        window: window_emitted(r.window, n),
                        stats: StatsCounters {
                            bytes_write: wrapped_u64(r.stats.bytes_write + n),
                            send_seq: seq,
                            ..r.stats
                        },
                        debug_log: DebugLogView {
                            sent: logged(
                                r.debug_log.sent,
                                DebugEntryView { seq, bytes: e.bytes, timestamp: now },
                            ),
                            ..r.debug_log
                        },
                        sent_times: if e.notify_id.0 == 0 {
                            r.sent_times
                        } else {
                            r.sent_times.insert(e.notify_id.0, now)
                        },
                        ..r
                    },
                )
            },
        }
    }
}

/// The response to hand to the callback, if one waits for it, and the
/// controller behind it.
pub open spec fn answered(r: RecordView, id: NotifyId, bytes: Seq<u8>, now: u64) -> (
    Option<NotifyResponseView>,
    RecordView,
) {
    let seq = wrapped_u64(r.stats.receive_seq + 1);
    (
        if r.notify_table.pending.contains(id.0) {
            Some(
                NotifyResponseView {
                    bytes,
                    sent_time: if r.sent_times.contains_key(id.0) {
                        r.sent_times[id.0]
                    } else {
                        0
                    },
                    receive_time: now,
                },
            )
        } else {
            None
        },
        RecordView {
            stats: StatsCounters {
                bytes_read: wrapped_u64(r.stats.bytes_read + bytes.len() as u64),
                receive_seq: seq,
                ..r.stats
            },
            sent_times: r.sent_times.remove(id.0),
            debug_log: DebugLogView {
                received: logged(
                    r.debug_log.received,
                    DebugEntryView { seq, bytes, timestamp: now },
                ),
                ..r.debug_log
            },
            notify_table: NotifyTableView {
                pending: r.notify_table.pending.remove(id.0),
                ..r.notify_table
            },
            ..r
        },
    )
}

/// Whether nothing is ready in any queue.
pub open spec fn nothing_ready(s: McuStateView) -> bool {
    forall|i: int| 0 <= i < s.queues.len() ==> (#[trigger] s.queues[i]).ready.len() == 0
}

/// The callbacks to call, and the controller behind it: when the queues have
/// run empty since the last entry was sent.
pub open spec fn flushed(r: RecordView) -> (Seq<u64>, RecordView) {
    if r.was_non_empty && nothing_ready(r.state) {
        (r.flush_callbacks, RecordView { was_non_empty: false, ..r })
    } else {
        (Seq::empty(), r)
    }
}

/// The statistics of a controller.
pub open spec fn stats_of(r: RecordView) -> PassthroughStats {
    PassthroughStats {
        ready_bytes: wrapped_u64(ready_total(r.state.queues) as int),
        upcoming_bytes: wrapped_u64(upcoming_total(r.state.queues) as int),
        ..snapshot_of(r.stats)
    }
}

/// The queues of all controllers.
#[derive(Debug)]
pub struct PassthroughRouter {
    index: IdIndex,
    records: Vec<McuRecord>,
    next_handle: u32,
}

/// Model of [`PassthroughRouter`].
#[verifier::ext_equal]
pub struct RouterView {
    pub handles: Seq<u32>,
    pub records: Seq<RecordView>,
    pub next_handle: u32,
}

impl RouterView {
    /// Whether a controller is claimed.
    pub open spec fn knows(self, h: McuHandle) -> bool {
        self.handles.contains(h.0)
    }

    /// What is known of a controller.
    pub open spec fn record(self, h: McuHandle) -> RecordView {
        self.records[self.handles.index_of(h.0)]
    }

    /// The router with another record for a controller.
    pub open spec fn with(self, h: McuHandle, r: RecordView) -> RouterView {
        RouterView { records: self.records.update(self.handles.index_of(h.0), r), ..self }
    }
}

/// A router without controllers.
pub open spec fn fresh_router() -> RouterView {
    RouterView { handles: Seq::empty(), records: Seq::empty(), next_handle: 0 }
}

/// The router after an acknowledgement for a controller; none for one that is
/// not claimed.
pub open spec fn router_acked(v: RouterView, h: McuHandle, acked_bytes: u64) -> RouterView {
    if v.knows(h) {
        let r = v.record(h);
        v.with(h, RecordView { window: window_acked(r.window, acked_bytes), ..r })
    } else {
        v
    }
}

closed spec fn record_views(v: Seq<McuRecord>) -> Seq<RecordView> {
    Seq::new(v.len(), |i: int| v[i]@)
}

impl View for PassthroughRouter {
    type V = RouterView;

    closed spec fn view(&self) -> RouterView {
        RouterView {
            handles: self.index@,
            records: record_views(self.records@),
            next_handle: self.next_handle,
        }
    }
}

proof fn lemma_swap_removed_distinct(s: Seq<u32>, i: int)
    requires
        distinct(s),
        0 <= i < s.len(),
    ensures
        distinct(swap_removed(s, i)),
{
}

/// A key that is taken out is not there any more.
proof fn lemma_removed_is_gone(s: Seq<u32>, i: int)
    requires
        distinct(s),
        0 <= i < s.len(),
    ensures
        !swap_removed(s, i).contains(s[i]),
{
    let t = swap_removed(s, i);
    if t.contains(s[i]) {
        let k = t.index_of(s[i]);
        assert(t[k] == if k == i {
            s.last()
        } else {
            s[k]
        });
    }
}

/// The other keys stay, with what stands beside them.
proof fn lemma_others_stay(s: Seq<u32>, rs: Seq<RecordView>, i: int, j: int)
    requires
        distinct(s),
        s.len() == rs.len(),
        0 <= i < s.len(),
        0 <= j < s.len(),
        i != j,
    ensures
        swap_removed(s, i).contains(s[j]),
        swap_removed(rs, i)[swap_removed(s, i).index_of(s[j])] == rs[j],
{
    let t = swap_removed(s, i);
    let k = if j == s.len() - 1 {
        i
    } else {
        j
    };
    assert(t[k] == s[j]);
    lemma_swap_removed_distinct(s, i);
    assert(t.index_of(s[j]) == k);
}

impl PassthroughRouter {
    /// Whether each controller has its handle and its queues are in order.
    pub closed spec fn wf(&self) -> bool {
        &&& distinct(self.index@)
        &&& self.index@.len() == self.records@.len()
        &&& forall|i: int|
            0 <= i < self.index@.len() ==> #[trigger] self.index@[i] < self.next_handle
        &&& forall|i: int| 0 <= i < self.records@.len() ==> (#[trigger] self.records@[i]).state.wf()
    }

    /// No controllers.
    pub fn new() -> (s: Self)
        ensures
            s.wf(),
            s@ == fresh_router(),
    {
        let s = PassthroughRouter { index: IdIndex::new(), records: Vec::new(), next_handle: 0 };
        proof {
            assert(s@ =~= fresh_router());
        }
        s
    }

    /// The handle at a position, in the order of the claims.
    pub fn mcu_handle(&self, i: usize) -> (r: Option<McuHandle>)
        ensures
            r == (if i < self@.handles.len() {
                Some(McuHandle(self@.handles[i as int]))
            } else {
                None
            }),
    {
        match self.index.key(i) {
            Some(k) => Some(McuHandle(k)),
            None => None,
        }
    }

    /// The handles of all controllers.
    pub fn mcu_handles(&self) -> (r: Vec<McuHandle>)
        ensures
            r@ == Seq::new(self@.handles.len(), |i: int| McuHandle(self@.handles[i])),
    {
        let mut out: Vec<McuHandle> = Vec::new();
        let mut i: usize = 0;
        loop
            invariant
                i == out@.len(),
                i <= self@.handles.len(),
                forall|j: int| 0 <= j < i ==> #[trigger] out@[j] == McuHandle(self@.handles[j]),
            ensures
                out@.len() == self@.handles.len(),
                forall|j: int|
                    0 <= j < out@.len() ==> #[trigger] out@[j] == McuHandle(self@.handles[j]),
            decreases self@.handles.len() - i,
        {
            match self.mcu_handle(i) {
                Some(h) => {
                    out.push(h);
                    i = out.len();
                },
                None => {
                    break;
                },
            }
        }
        proof {
            assert(out@ =~= Seq::new(
                self@.handles.len(),
                |i: int| McuHandle(self@.handles[i]),
            ));
        }
        out
    }

    /// Whether there are handles left for more controllers.
    pub fn has_room(&self) -> (r: bool)
        ensures
            r == (self@.next_handle < u32::MAX),
    {
        self.next_handle < u32::MAX
    }

    /// Claims a new controller.
    pub fn claim_mcu(&mut self, label: &str) -> (h: McuHandle)
        requires
            old(self).wf(),
            old(self)@.next_handle < u32::MAX,
        ensures
            final(self).wf(),
            h.0 == old(self)@.next_handle,
            !old(self)@.knows(h),
            final(self)@ == (RouterView {
                handles: old(self)@.handles.push(h.0),
                records: old(self)@.records.push(fresh_record(label@)),
                next_handle: (old(self)@.next_handle + 1) as u32,
            }),
    {
        let h: u32 = self.next_handle;
        self.next_handle += 1;
        let ghost rs = record_views(self.records@);
        self.index.insert(h);
        let r = McuRecord {
            label: copy_text(label),
            state: McuState::new(),
            notify_table: NotifyTable::new(),
            window: ReceiveWindow::new(),
            sent_times: HashMap::new(),
            config_stage: ConfigStage::new(),
            clock: ClockEst { freq: 0, offset: 0, last_clock: 0 },
            flush_callbacks: Vec::new(),
            was_non_empty: false,
            stats: StatsCounters::new(),
            debug_log: DebugLog::new(),
        };
        proof {
            assert(r@ =~= fresh_record(label@));
        }
        self.records.push(r);
        proof {
            assert(record_views(self.records@) =~= rs.push(fresh_record(label@)));
        }
        McuHandle(h)
    }

    /// Releases a controller; the last one takes its place in the order.
    pub fn release_mcu(&mut self, handle: McuHandle)
        requires
            old(self).wf(),
        ensures
            final(self).wf(),
            final(self)@ == (if old(self)@.knows(handle) {
                let i = old(self)@.handles.index_of(handle.0);
                RouterView {
                    handles: swap_removed(old(self)@.handles, i),
                    records: swap_removed(old(self)@.records, i),
                    ..old(self)@
                }
            } else {
                old(self)@
            }),
            !final(self)@.knows(handle),
            forall|h: McuHandle|
                h != handle && #[trigger] old(self)@.knows(h) ==> final(self)@.knows(h)
                    && final(self)@.record(h) == old(self)@.record(h),
    {
        let ghost keys = self.index@;
        let ghost rs = record_views(self.records@);
        match self.index.swap_remove(handle.0) {
            Some(i) => {
                proof {
                    lemma_swap_removed_distinct(keys, i as int);
                    assert(keys.contains(handle.0));
                    assert(keys[keys.index_of(handle.0)] == handle.0);
                }
                self.records.swap_remove(i);
                proof {
                    assert(record_views(self.records@) =~= swap_removed(rs, i as int));
                    assert forall|h: McuHandle|
                        h != handle && #[trigger] old(self)@.knows(h) implies self@.knows(h)
                        && self@.record(h) == old(self)@.record(h) by {
                        lemma_others_stay(keys, rs, i as int, keys.index_of(h.0));
                    }
                    lemma_removed_is_gone(keys, i as int);
                }
            },
            None => {},
        }
    }

    /// The position of a controller.
    fn find(&self, mcu: McuHandle) -> (r: Result<usize, RouterError>)
        requires
            self.wf(),
        ensures
            match r {
                Ok(i) => self@.knows(mcu) && i == self@.handles.index_of(mcu.0) && i
                    < self.records@.len() && self.records@[i as int]@ == self@.record(mcu),
                Err(e) => !self@.knows(mcu) && e == RouterError::UnknownMcu(mcu),
            },
    {
        match self.index.find(mcu.0) {
            Some(i) => {
                proof {
                    assert(self.index@.contains(mcu.0));
                    assert(self.index@[self.index@.index_of(mcu.0)] == mcu.0);
                }
                Ok(i)
            },
            None => Err(RouterError::UnknownMcu(mcu)),
        }
    }

    /// A new queue for a controller.
    pub fn alloc_command_queue(&mut self, mcu: McuHandle) -> (r: Result<
        CommandQueueId,
        RouterError,
    >)
        requires
            old(self).wf(),
            old(self)@.knows(mcu) ==> old(self)@.record(mcu).state.next_id < u32::MAX,
        ensures
            final(self).wf(),
            match r {
                Ok(id) => {
                    let rec = old(self)@.record(mcu);
                    &&& old(self)@.knows(mcu)
                    &&& id.0 == rec.state.next_id
                    &&& final(self)@ == old(self)@.with(
                        mcu,
                        RecordView {
                            state: McuStateView {
                                ids: rec.state.ids.push(id.0),
                                queues: rec.state.queues.push(empty_queue()),
                                next_id: (rec.state.next_id + 1) as u32,
                            },
                            ..rec
                        },
                    )
                },
                Err(e) => !old(self)@.knows(mcu) && e == RouterError::UnknownMcu(mcu)
                    && final(self)@ == old(self)@,
            },
    {
        match self.find(mcu) {
            Err(e) => Err(e),
            Ok(i) => {
                let id: CommandQueueId = self.records[i].state.alloc_command_queue();
                proof {
                    assert(self@ =~= old(self)@.with(mcu, self.records@[i as int]@));
                }
                Ok(id)
            },
        }
    }

    /// A new identifier for a response of a controller.
    pub fn register_notify(&mut self, mcu: McuHandle) -> (r: Result<NotifyId, RouterError>)
        requires
            old(self).wf(),
        ensures
            final(self).wf(),
            match r {
                Ok(id) => {
                    let rec = old(self)@.record(mcu);
                    &&& old(self)@.knows(mcu)
                    &&& id == NotifyId(rec.notify_table.next_id)
                    &&& final(self)@ == old(self)@.with(
                        mcu,
                        RecordView { notify_table: notify_registered(rec.notify_table), ..rec },
                    )
                },
                Err(e) => !old(self)@.knows(mcu) && e == RouterError::UnknownMcu(mcu)
                    && final(self)@ == old(self)@,
            },
    {
        match self.find(mcu) {
            Err(e) => Err(e),
            Ok(i) => {
                let id: NotifyId = self.records[i].notify_table.register();
                proof {
                    assert(self@ =~= old(self)@.with(mcu, self.records@[i as int]@));
                }
                Ok(id)
            },
        }
    }

    /// Queues an entry.
    pub fn push(&mut self, mcu: McuHandle, queue_id: CommandQueueId, entry: PassthroughEntry) -> (r:
        Result<(), RouterError>)
        requires
            old(self).wf(),
        ensures
            final(self).wf(),
            match r {
                Ok(_) => {
                    let rec = old(self)@.record(mcu);
                    &&& old(self)@.knows(mcu)
                    &&& state_pushed(rec.state, queue_id.0, entry@) matches Ok(s) && final(self)@
                        == old(self)@.with(mcu, RecordView { state: s, ..rec })
                },
                Err(RouterError::UnknownMcu(h)) => !old(self)@.knows(mcu) && h == mcu
                    && final(self)@ == old(self)@,
                Err(RouterError::Push(p)) => {
                    &&& old(self)@.knows(mcu)
                    &&& state_pushed(old(self)@.record(mcu).state, queue_id.0, entry@) == Err::<
                        McuStateView,
                        _,
                    >(p)
                    &&& final(self)@ == old(self)@
                },
                Err(RouterError::WindowFull) => false,
            },
    {
        match self.find(mcu) {
            Err(e) => Err(e),
            Ok(i) => {
                let r: Result<(), PushError> = self.records[i].state.push(queue_id, entry);
                proof {
                    assert(self@ =~= old(self)@.with(mcu, self.records@[i as int]@));
                    assert(old(self)@.with(mcu, old(self)@.record(mcu)) =~= old(self)@);
                }
                match r {
                    Ok(_) => Ok(()),
                    Err(p) => Err(RouterError::Push(p)),
                }
            },
        }
    }

    /// Sets the clock of a controller's queues.
    pub fn promote_all(&mut self, mcu: McuHandle, ack_clock: u64) -> (r: Result<(), RouterError>)
        requires
            old(self).wf(),
        ensures
            final(self).wf(),
            match r {
                Ok(_) => {
                    let rec = old(self)@.record(mcu);
                    &&& old(self)@.knows(mcu)
                    &&& final(self)@ == old(self)@.with(
                        mcu,
                        RecordView { state: state_promoted(rec.state, ack_clock), ..rec },
                    )
                },
                Err(e) => !old(self)@.knows(mcu) && e == RouterError::UnknownMcu(mcu)
                    && final(self)@ == old(self)@,
            },
    {
        match self.find(mcu) {
            Err(e) => Err(e),
            Ok(i) => {
                self.records[i].state.promote_all(ack_clock);
                proof {
                    assert(self@ =~= old(self)@.with(mcu, self.records@[i as int]@));
                }
                Ok(())
            },
        }
    }

    /// Takes the entry that is sent next, if the receive window is open, and
    /// counts it as sent at time `now`.
    pub fn pop_next_for_emission(&mut self, mcu: McuHandle, now: u64) -> (r: Result<
        Option<PassthroughEntry>,
        RouterError,
    >)
        requires
            old(self).wf(),
        ensures
            final(self).wf(),
            match r {
                Ok(e) => {
                    let rec = old(self)@.record(mcu);
                    &&& old(self)@.knows(mcu)
                    &&& final(self)@ == old(self)@.with(mcu, emitted(rec, now).1)
                    &&& match e {
                        Some(x) => emitted(rec, now).0 == Some(x@),
                        None => emitted(rec, now).0 is None,
                    }
                },
                Err(e) => !old(self)@.knows(mcu) && e == RouterError::UnknownMcu(mcu)
                    && final(self)@ == old(self)@,
            },
    {
        match self.find(mcu) {
            Err(e) => Err(e),
            Ok(i) => {
                proof {
                    assert(old(self)@.with(mcu, old(self)@.record(mcu)) =~= old(self)@);
                }
                if !self.records[i].window.can_emit() {
                    return Ok(None);
                }
                let popped: Option<PassthroughEntry> = self.records[i].state.pop_next();
                match &popped {
                    Some(e) => {
                        self.records[i].was_non_empty = true;
                        let n: u64 = e.bytes().len() as u64;
                        self.records[i].window.record_emit(n);
                        let written: u64 = self.records[i].stats.bytes_write.wrapping_add(n);
                        let seq: u64 = self.records[i].stats.send_seq.wrapping_add(1);
                        self.records[i].stats.bytes_write = written;
                        self.records[i].stats.send_seq = seq;
                        let copy: Vec<u8> = vstd::slice::slice_to_vec(e.bytes());
                        self.records[i].debug_log.record_sent(seq, copy, now);
                        if !e.notify_id().is_none() {
                            self.records[i].sent_times.insert(e.notify_id().raw(), now);
                        }
                        proof {
                            let rec = old(self)@.record(mcu);
                            assert(self.records@[i as int]@ =~= emitted(rec, now).1);
                            assert(self@ =~= old(self)@.with(mcu, self.records@[i as int]@));
                        }
                    },
                    None => {
                        proof {
                            assert(self@ =~= old(self)@.with(mcu, self.records@[i as int]@));
                        }
                    },
                }
                Ok(popped)
            },
        }
    }

    /// Counts a response of a controller that came at time `now`, and gives it
    /// back if its callback still waits for it. The bytes are the body of the
    /// message, without header and trailer, and pass through as they are.
    pub fn dispatch_response(
        &mut self,
        mcu: McuHandle,
        notify_id: NotifyId,
        response_bytes: Vec<u8>,
        now: u64,
    ) -> (r: Result<Option<NotifyResponse>, RouterError>)
        requires
            old(self).wf(),
        ensures
            final(self).wf(),
            match r {
                Ok(e) => {
                    let got = answered(old(self)@.record(mcu), notify_id, response_bytes@, now);
                    &&& old(self)@.knows(mcu)
                    &&& final(self)@ == old(self)@.with(mcu, got.1)
                    &&& match e {
                        Some(x) => got.0 == Some(x@),
                        None => got.0 is None,
                    }
                },
                Err(e) => !old(self)@.knows(mcu) && e == RouterError::UnknownMcu(mcu)
                    && final(self)@ == old(self)@,
            },
    {
        match self.find(mcu) {
            Err(e) => Err(e),
            Ok(i) => {
                let ghost bytes = response_bytes@;
                let ghost rec = old(self)@.record(mcu);
                let n: u64 = response_bytes.len() as u64;
                let read: u64 = self.records[i].stats.bytes_read.wrapping_add(n);
                let seq: u64 = self.records[i].stats.receive_seq.wrapping_add(1);
                self.records[i].stats.bytes_read = read;
                self.records[i].stats.receive_seq = seq;
                let sent_time: u64 = match self.records[i].sent_times.remove(&notify_id.0) {
                    Some(t) => t,
                    None => 0,
                };
                let copy: Vec<u8> = response_bytes.clone();
                proof {
                    assert(copy@ =~= bytes);
                }
                self.records[i].debug_log.record_received(seq, copy, now);
                let response = NotifyResponse {
                    bytes: response_bytes,
                    sent_time,
                    receive_time: now,
                };
                let out: Option<NotifyResponse> = self.records[i].notify_table.dispatch(
                    notify_id,
                    response,
                );
                proof {
                    assert(rec.sent_times.remove(notify_id.0)
                        =~= self.records@[i as int].sent_times@);
                    assert(self.records@[i as int]@ =~= answered(rec, notify_id, bytes, now).1);
                    assert(self@ =~= old(self)@.with(mcu, self.records@[i as int]@));
                }
                Ok(out)
            },
        }
    }

    /// Counts a block that a controller acknowledged.
    pub fn record_ack(&mut self, mcu: McuHandle, acked_bytes: u64) -> (r: Result<
        (),
        RouterError,
    >)
        requires
            old(self).wf(),
        ensures
            final(self).wf(),
            final(self)@ == router_acked(old(self)@, mcu, acked_bytes),
            match r {
                Ok(_) => old(self)@.knows(mcu),
                Err(e) => !old(self)@.knows(mcu) && e == RouterError::UnknownMcu(mcu),
            },
    {
        match self.find(mcu) {
            Err(e) => Err(e),
            Ok(i) => {
                self.records[i].window.record_ack(acked_bytes);
                proof {
                    assert(self@ =~= old(self)@.with(mcu, self.records@[i as int]@));
                }
                Ok(())
            },
        }
    }

    /// Adds a configuration command for a controller, while its commands are collected.
    pub fn add_config_cmd(&mut self, mcu: McuHandle, bytes: Vec<u8>) -> (r: Result<bool, RouterError>)
        requires
            old(self).wf(),
        ensures
            final(self).wf(),
            match r {
                Ok(added) => {
                    let rec = old(self)@.record(mcu);
                    let stage = rec.config_stage;
                    &&& old(self)@.knows(mcu)
                    &&& added == (stage.phase == ConfigStagePhase::Collecting)
                    &&& final(self)@ == (if added {
                        old(self)@.with(
                            mcu,
                            RecordView {
                                config_stage: ConfigStageView {
                                    config_cmds: stage.config_cmds.push(bytes@),
                                    ..stage
                                },
                                ..rec
                            },
                        )
                    } else {
                        old(self)@
                    })
                },
                Err(e) => !old(self)@.knows(mcu) && e == RouterError::UnknownMcu(mcu)
                    && final(self)@ == old(self)@,
            },
    {
        match self.find(mcu) {
            Err(e) => Err(e),
            Ok(i) => {
                let r: bool = self.records[i].config_stage.add_config_cmd(bytes);
                proof {
                    assert(self@ =~= old(self)@.with(mcu, self.records@[i as int]@));
                    assert(old(self)@.with(mcu, old(self)@.record(mcu)) =~= old(self)@);
                }
                Ok(r)
            },
        }
    }

    /// Adds an init command for a controller, while its commands are collected.
    pub fn add_init_cmd(&mut self, mcu: McuHandle, bytes: Vec<u8>) -> (r: Result<bool, RouterError>)
        requires
            old(self).wf(),
        ensures
            final(self).wf(),
            match r {
                Ok(added) => {
                    let rec = old(self)@.record(mcu);
                    let stage = rec.config_stage;
                    &&& old(self)@.knows(mcu)
                    &&& added == (stage.phase == ConfigStagePhase::Collecting)
                    &&& final(self)@ == (if added {
                        old(self)@.with(
                            mcu,
                            RecordView {
                                config_stage: ConfigStageView {
                                    init_cmds: stage.init_cmds.push(bytes@),
                                    ..stage
                                },
                                ..rec
                            },
                        )
                    } else {
                        old(self)@
                    })
                },
                Err(e) => !old(self)@.knows(mcu) && e == RouterError::UnknownMcu(mcu)
                    && final(self)@ == old(self)@,
            },
    {
        match self.find(mcu) {
            Err(e) => Err(e),
            Ok(i) => {
                let r: bool = self.records[i].config_stage.add_init_cmd(bytes);
                proof {
                    assert(self@ =~= old(self)@.with(mcu, self.records@[i as int]@));
                    assert(old(self)@.with(mcu, old(self)@.record(mcu)) =~= old(self)@);
                }
                Ok(r)
            },
        }
    }

    /// Adds a restart command for a controller, while its commands are collected.
    pub fn add_restart_cmd(&mut self, mcu: McuHandle, bytes: Vec<u8>) -> (r: Result<bool, RouterError>)
        requires
            old(self).wf(),
        ensures
            final(self).wf(),
            match r {
                Ok(added) => {
                    let rec = old(self)@.record(mcu);
                    let stage = rec.config_stage;
                    &&& old(self)@.knows(mcu)
                    &&& added == (stage.phase == ConfigStagePhase::Collecting)
                    &&& final(self)@ == (if added {
                        old(self)@.with(
                            mcu,
                            RecordView {
                                config_stage: ConfigStageView {
                                    restart_cmds: stage.restart_cmds.push(bytes@),
                                    ..stage
                                },
                                ..rec
                            },
                        )
                    } else {
                        old(self)@
                    })
                },
                Err(e) => !old(self)@.knows(mcu) && e == RouterError::UnknownMcu(mcu)
                    && final(self)@ == old(self)@,
            },
    {
        match self.find(mcu) {
            Err(e) => Err(e),
            Ok(i) => {
                let r: bool = self.records[i].config_stage.add_restart_cmd(bytes);
                proof {
                    assert(self@ =~= old(self)@.with(mcu, self.records@[i as int]@));
                    assert(old(self)@.with(mcu, old(self)@.record(mcu)) =~= old(self)@);
                }
                Ok(r)
            },
        }
    }

    /// Starts to send a controller's configuration.
    pub fn begin_config_phase(&mut self, mcu: McuHandle) -> (r: Result<(), RouterError>)
        requires
            old(self).wf(),
        ensures
            final(self).wf(),
            match r {
                Ok(_) => {
                    let rec = old(self)@.record(mcu);
                    &&& old(self)@.knows(mcu)
                    &&& final(self)@ == old(self)@.with(
                        mcu,
                        RecordView {
                            config_stage: ConfigStageView {
                                phase: ConfigStagePhase::SendingConfig,
                                cursor: 0,
                                ..rec.config_stage
                            },
                            ..rec
                        },
                    )
                },
                Err(e) => !old(self)@.knows(mcu) && e == RouterError::UnknownMcu(mcu)
                    && final(self)@ == old(self)@,
            },
    {
        match self.find(mcu) {
            Err(e) => Err(e),
            Ok(i) => {
                self.records[i].config_stage.begin_config_send();
                proof {
                    assert(self@ =~= old(self)@.with(mcu, self.records@[i as int]@));
                }
                Ok(())
            },
        }
    }

    /// The next configuration command of a controller.
    pub fn next_config_entry(&mut self, mcu: McuHandle) -> (r: Result<
        Option<Vec<u8>>,
        RouterError,
    >)
        requires
            old(self).wf(),
        ensures
            final(self).wf(),
            match r {
                Ok(c) => {
                    let rec = old(self)@.record(mcu);
                    let next = next_command(rec.config_stage);
                    &&& old(self)@.knows(mcu)
                    &&& final(self)@ == old(self)@.with(
                        mcu,
                        RecordView { config_stage: next.1, ..rec },
                    )
                    &&& match c {
                        Some(b) => next.0 == Some(b@),
                        None => next.0 is None,
                    }
                },
                Err(e) => !old(self)@.knows(mcu) && e == RouterError::UnknownMcu(mcu)
                    && final(self)@ == old(self)@,
            },
    {
        match self.find(mcu) {
            Err(e) => Err(e),
            Ok(i) => {
                let r: Option<Vec<u8>> = self.records[i].config_stage.next_config_entry();
                proof {
                    assert(self@ =~= old(self)@.with(mcu, self.records@[i as int]@));
                }
                Ok(r)
            },
        }
    }

    /// How far the configuration of a controller has come.
    pub fn config_phase(&self, mcu: McuHandle) -> (r: Result<ConfigStagePhase, RouterError>)
        requires
            self.wf(),
        ensures
            match r {
                Ok(p) => self@.knows(mcu) && p == self@.record(mcu).config_stage.phase,
                Err(e) => !self@.knows(mcu) && e == RouterError::UnknownMcu(mcu),
            },
    {
        match self.find(mcu) {
            Err(e) => Err(e),
            Ok(i) => Ok(self.records[i].config_stage.phase()),
        }
    }

    /// Sets how a controller's clock runs: its frequency, the host time that
    /// goes with `last_clock`, and that reading.
    pub fn set_clock_est(&mut self, mcu: McuHandle, freq: u64, offset: u64, last_clock: u64) -> (r:
        Result<(), RouterError>)
        requires
            old(self).wf(),
        ensures
            final(self).wf(),
            match r {
                Ok(_) => {
                    let rec = old(self)@.record(mcu);
                    &&& old(self)@.knows(mcu)
                    &&& final(self)@ == old(self)@.with(
                        mcu,
                        RecordView { clock: ClockEst { freq, offset, last_clock }, ..rec },
                    )
                },
                Err(e) => !old(self)@.knows(mcu) && e == RouterError::UnknownMcu(mcu)
                    && final(self)@ == old(self)@,
            },
    {
        match self.find(mcu) {
            Err(e) => Err(e),
            Ok(i) => {
                self.records[i].clock = ClockEst { freq, offset, last_clock };
                proof {
                    assert(self@ =~= old(self)@.with(mcu, self.records@[i as int]@));
                }
                Ok(())
            },
        }
    }

    /// How a controller's clock runs.
    pub fn clock_est(&self, mcu: McuHandle) -> (r: Result<ClockEst, RouterError>)
        requires
            self.wf(),
        ensures
            match r {
                Ok(c) => self@.knows(mcu) && c == self@.record(mcu).clock,
                Err(e) => !self@.knows(mcu) && e == RouterError::UnknownMcu(mcu),
            },
    {
        match self.find(mcu) {
            Err(e) => Err(e),
            Ok(i) => Ok(self.records[i].clock),
        }
    }

    /// What a controller's clock reads now, `elapsed` ticks after its last
    /// reading.
    pub fn compute_ack_clock(&self, mcu: McuHandle, elapsed: u64) -> (r: Result<u64, RouterError>)
        requires
            self.wf(),
        ensures
            match r {
                Ok(c) => self@.knows(mcu) && c == projected(self@.record(mcu).clock, elapsed),
                Err(e) => !self@.knows(mcu) && e == RouterError::UnknownMcu(mcu),
            },
    {
        match self.clock_est(mcu) {
            Err(e) => Err(e),
            Ok(c) => Ok(c.projected(elapsed)),
        }
    }

    /// What a controller's clock reads at a host time that is `elapsed` ticks
    /// after its last reading.
    pub fn host_time_to_mcu_clock(&self, mcu: McuHandle, elapsed: u64) -> (r: Result<
        u64,
        RouterError,
    >)
        requires
            self.wf(),
        ensures
            match r {
                Ok(c) => self@.knows(mcu) && c == projected(self@.record(mcu).clock, elapsed),
                Err(e) => !self@.knows(mcu) && e == RouterError::UnknownMcu(mcu),
            },
    {
        self.compute_ack_clock(mcu, elapsed)
    }

    /// The statistics of a controller.
    pub fn get_stats(&self, mcu: McuHandle) -> (r: Result<PassthroughStats, RouterError>)
        requires
            self.wf(),
        ensures
            match r {
                Ok(s) => self@.knows(mcu) && s == stats_of(self@.record(mcu)),
                Err(e) => !self@.knows(mcu) && e == RouterError::UnknownMcu(mcu),
            },
    {
        match self.find(mcu) {
            Err(e) => Err(e),
            Ok(i) => {
                let mut s: PassthroughStats = self.records[i].stats.snapshot();
                s.ready_bytes = self.records[i].state.total_ready_bytes();
                s.upcoming_bytes = self.records[i].state.total_upcoming_bytes();
                Ok(s)
            },
        }
    }

    /// Takes the last messages of a controller out: those sent and those
    /// received.
    pub fn extract_old(&mut self, mcu: McuHandle) -> (r: Result<
        (Vec<DebugEntry>, Vec<DebugEntry>),
        RouterError,
    >)
        requires
            old(self).wf(),
        ensures
            final(self).wf(),
            match r {
                Ok(l) => {
                    let rec = old(self)@.record(mcu);
                    &&& old(self)@.knows(mcu)
                    &&& debug_views(l.0@) == rec.debug_log.sent
                    &&& debug_views(l.1@) == rec.debug_log.received
                    &&& final(self)@ == old(self)@.with(
                        mcu,
                        RecordView { debug_log: no_log(), ..rec },
                    )
                },
                Err(e) => !old(self)@.knows(mcu) && e == RouterError::UnknownMcu(mcu)
                    && final(self)@ == old(self)@,
            },
    {
        match self.find(mcu) {
            Err(e) => Err(e),
            Ok(i) => {
                let r: (Vec<DebugEntry>, Vec<DebugEntry>) =
                    self.records[i].debug_log.extract_old();
                proof {
                    assert(self@ =~= old(self)@.with(mcu, self.records@[i as int]@));
                }
                Ok(r)
            },
        }
    }

    /// Adds a callback, by its number, for when a controller's queues run
    /// empty.
    pub fn register_flush_callback(&mut self, mcu: McuHandle, callback: u64) -> (r: Result<
        (),
        RouterError,
    >)
        requires
            old(self).wf(),
        ensures
            final(self).wf(),
            match r {
                Ok(_) => {
                    let rec = old(self)@.record(mcu);
                    &&& old(self)@.knows(mcu)
                    &&& final(self)@ == old(self)@.with(
                        mcu,
                        RecordView {
                            flush_callbacks: rec.flush_callbacks.push(callback),
                            ..rec
                        },
                    )
                },
                Err(e) => !old(self)@.knows(mcu) && e == RouterError::UnknownMcu(mcu)
                    && final(self)@ == old(self)@,
            },
    {
        match self.find(mcu) {
            Err(e) => Err(e),
            Ok(i) => {
                self.records[i].flush_callbacks.push(callback);
                proof {
                    assert(self@ =~= old(self)@.with(mcu, self.records@[i as int]@));
                }
                Ok(())
            },
        }
    }

    /// The callbacks to call, in order, if a controller's queues have run
    /// empty since its last entry was sent.
    pub fn check_flush(&mut self, mcu: McuHandle) -> (r: Result<Vec<u64>, RouterError>)
        requires
            old(self).wf(),
        ensures
            final(self).wf(),
            match r {
                Ok(c) => {
                    let f = flushed(old(self)@.record(mcu));
                    &&& old(self)@.knows(mcu)
                    &&& c@ == f.0
                    &&& final(self)@ == old(self)@.with(mcu, f.1)
                },
                Err(e) => !old(self)@.knows(mcu) && e == RouterError::UnknownMcu(mcu)
                    && final(self)@ == old(self)@,
            },
    {
        match self.find(mcu) {
            Err(e) => Err(e),
            Ok(i) => {
                proof {
                    assert(old(self)@.with(mcu, old(self)@.record(mcu)) =~= old(self)@);
                }
                if self.records[i].was_non_empty && self.records[i].state.is_all_ready_empty() {
                    self.records[i].was_non_empty = false;
                    let r: Vec<u64> = self.records[i].flush_callbacks.clone();
                    proof {
                        assert(r@ =~= self.records@[i as int].flush_callbacks@);
                        assert(self@ =~= old(self)@.with(mcu, self.records@[i as int]@));
                    }
                    Ok(r)
                } else {
                    let r: Vec<u64> = Vec::new();
                    Ok(r)
                }
            },
        }
    }
}

/// A controller's clock reads zero until an estimate is set, however much time
/// has passed.
pub proof fn law_no_estimate_reads_zero(label: Seq<char>, elapsed: u64)
    ensures
        projected(fresh_record(label).clock, elapsed) == 0,
{
}

} // verus!
