//! The queues of one controller.

use crate::ordered_map::{distinct, IdIndex};
use crate::passthrough_queue::command_queue::{
    law_lowest_first, promoted, pushed, total_bytes, urgent, CommandQueue, QueueView,
};
use crate::passthrough_queue::entry::{EntryView, PassthroughEntry, BACKGROUND_PRIORITY_CLOCK};
use crate::text::{copy_text, decimal, push_decimal};
use vstd::prelude::*;

verus! {

/// The number of a queue.
#[derive(Debug, Clone, Copy, PartialEq, Eq, Hash, Structural)]
pub struct CommandQueueId(pub u32);

impl CommandQueueId {
    /// The number.
    pub fn raw(&self) -> (r: u32)
        ensures
            r == self.0,
    {
        self.0
    }

    /// The identifier with a given number.
    pub fn from_raw(raw: u32) -> (r: Self)
        ensures
            r == CommandQueueId(raw),
    {
        CommandQueueId(raw)
    }
}

/// Why an entry was not queued.
#[derive(Debug, Clone, Copy, PartialEq, Eq, Structural)]
pub enum PushError {
    UnknownQueue(CommandQueueId),
}

impl PushError {
    /// The error in words.
    pub fn to_text(&self) -> (r: String)
        ensures
            r@ == push_error_text(*self),
    {
        match self {
            PushError::UnknownQueue(id) => {
                let mut s: String = copy_text("unknown command queue id ");
                push_decimal(&mut s, id.0 as u64);
                s
            },
        }
    }
}

/// A push error in words.
pub open spec fn push_error_text(e: PushError) -> Seq<char> {
    match e {
        PushError::UnknownQueue(id) => "unknown command queue id "@ + decimal(id.0 as nat),
    }
}

/// The queues of one controller, in the order of their allocation.
#[derive(Debug)]
pub struct McuState {
    index: IdIndex,
    queues: Vec<CommandQueue>,
    next_id: u32,
}

/// Model of [`McuState`].
#[verifier::ext_equal]
pub struct McuStateView {
    pub ids: Seq<u32>,
    pub queues: Seq<QueueView>,
    pub next_id: u32,
}

/// Queues, as models.
pub open spec fn queue_views(v: Seq<CommandQueue>) -> Seq<QueueView> {
    Seq::new(v.len(), |i: int| v[i]@)
}

impl View for McuState {
    type V = McuStateView;

    closed spec fn view(&self) -> McuStateView {
        McuStateView {
            ids: self.index@,
            queues: queue_views(self.queues@),
            next_id: self.next_id,
        }
    }
}

/// A controller without queues.
pub open spec fn no_queues() -> McuStateView {
    McuStateView { ids: Seq::empty(), queues: Seq::empty(), next_id: 0 }
}

/// A queue without entries.
pub open spec fn empty_queue() -> QueueView {
    QueueView { upcoming: Seq::empty(), ready: Seq::empty(), ack_clock: 0 }
}

/// The queues with one entry more.
pub open spec fn state_pushed(s: McuStateView, id: u32, e: EntryView) -> Result<
    McuStateView,
    PushError,
> {
    if s.ids.contains(id) {
        let i = s.ids.index_of(id);
        Ok(McuStateView { queues: s.queues.update(i, pushed(s.queues[i], e)), ..s })
    } else {
        Err(PushError::UnknownQueue(CommandQueueId(id)))
    }
}

/// The queues at another clock.
pub open spec fn state_promoted(s: McuStateView, ack_clock: u64) -> McuStateView {
    McuStateView {
        queues: Seq::new(s.queues.len(), |i: int| promoted(s.queues[i], ack_clock)),
        ..s
    }
}

/// Whether some queue has a ready entry that is not of background priority.
pub open spec fn any_urgent(qs: Seq<QueueView>) -> bool {
    exists|i: int| 0 <= i < qs.len() && urgent(#[trigger] qs[i])
}

/// Whether a queue's first ready entry may go.
pub open spec fn may_go(q: QueueView, skip_background: bool) -> bool {
    q.ready.len() > 0 && !(skip_background && q.ready[0].req_clock == BACKGROUND_PRIORITY_CLOCK)
}

/// The first queue whose first entry has the lowest clock of those that may
/// go.
pub open spec fn best(qs: Seq<QueueView>, skip_background: bool) -> Option<int>
    decreases qs.len(),
{
    if qs.len() == 0 {
        None
    } else {
        let before = best(qs.drop_last(), skip_background);
        if !may_go(qs.last(), skip_background) {
            before
        } else {
            match before {
                Some(j) => if qs[j].ready[0].req_clock <= qs.last().ready[0].req_clock {
                    Some(j)
                } else {
                    Some(qs.len() - 1)
                },
                None => Some(qs.len() - 1),
            }
        }
    }
}

/// The entry that goes next, and the queues without it.
pub open spec fn state_popped(s: McuStateView) -> (Option<EntryView>, McuStateView) {
    match best(s.queues, any_urgent(s.queues)) {
        None => (None, s),
        Some(i) => (
            Some(s.queues[i].ready[0]),
            McuStateView {
                queues: s.queues.update(
                    i,
                    QueueView { ready: s.queues[i].ready.skip(1), ..s.queues[i] },
                ),
                ..s
            },
        ),
    }
}

/// The queue that is chosen: its entry may go, none that may go has a lower
/// clock, and none before it has the same.
pub proof fn lemma_best(qs: Seq<QueueView>, skip_background: bool)
    ensures
        match best(qs, skip_background) {
            Some(i) => {
                &&& 0 <= i < qs.len()
                &&& may_go(qs[i], skip_background)
                &&& forall|j: int|
                    0 <= j < qs.len() && may_go(#[trigger] qs[j], skip_background)
                        ==> qs[i].ready[0].req_clock <= qs[j].ready[0].req_clock && (j < i
                        ==> qs[i].ready[0].req_clock < qs[j].ready[0].req_clock)
            },
            None => forall|j: int|
                0 <= j < qs.len() ==> !may_go(#[trigger] qs[j], skip_background),
        },
    decreases qs.len(),
{
    if qs.len() > 0 {
        let t = qs.drop_last();
        lemma_best(t, skip_background);
        assert forall|j: int| 0 <= j < t.len() implies #[trigger] qs[j] == t[j] by {}
        assert(qs.last() == qs[qs.len() - 1]);
    }
}

/// The entry that goes next has the lowest clock of all that are ready in any
/// queue; a background entry goes only when all that are ready are background
/// entries.
pub proof fn law_pop_lowest(s: McuStateView, j: int, k: int)
    requires
        forall|i: int|
            0 <= i < s.queues.len() ==> crate::passthrough_queue::command_queue::ordered(
                (#[trigger] s.queues[i]).ready,
                crate::passthrough_queue::command_queue::By::Req,
            ),
        0 <= j < s.queues.len(),
        0 <= k < s.queues[j].ready.len(),
    ensures
        state_popped(s).0 matches Some(e) && e.req_clock <= s.queues[j].ready[k].req_clock,
{
    lemma_best(s.queues, any_urgent(s.queues));
    let q = s.queues[j];
    law_lowest_first(q, k);
    if any_urgent(s.queues) {
        let u = choose|i: int| 0 <= i < s.queues.len() && urgent(#[trigger] s.queues[i]);
        assert(may_go(s.queues[u], true));
        if urgent(q) {
            assert(may_go(q, true));
        } else {
            assert(q.ready[k].req_clock == BACKGROUND_PRIORITY_CLOCK);
        }
    } else {
        assert(may_go(q, false));
    }
}

/// The bytes of all ready entries.
pub open spec fn ready_total(qs: Seq<QueueView>) -> nat
    decreases qs.len(),
{
    if qs.len() == 0 {
        0
    } else {
        ready_total(qs.drop_last()) + total_bytes(qs.last().ready)
    }
}

/// The bytes of all entries that wait.
pub open spec fn upcoming_total(qs: Seq<QueueView>) -> nat
    decreases qs.len(),
{
    if qs.len() == 0 {
        0
    } else {
        upcoming_total(qs.drop_last()) + total_bytes(qs.last().upcoming)
    }
}

impl McuState {
    /// Whether each queue has its identifier and is in order.
    pub closed spec fn wf(&self) -> bool {
        &&& distinct(self.index@)
        &&& self.index@.len() == self.queues@.len()
        &&& forall|i: int| 0 <= i < self.index@.len() ==> #[trigger] self.index@[i] < self.next_id
        &&& forall|i: int| 0 <= i < self.queues@.len() ==> (#[trigger] self.queues@[i]).wf()
    }

    /// The queues of a controller are told apart by their numbers, and what is
    /// ready in each stands in the order in which it is due.
    pub proof fn law_ready_in_order(&self)
        requires
            self.wf(),
        ensures
            distinct(self@.ids),
            self@.ids.len() == self@.queues.len(),
            forall|i: int|
                0 <= i < self@.queues.len() ==> crate::passthrough_queue::command_queue::ordered(
                    (#[trigger] self@.queues[i]).ready,
                    crate::passthrough_queue::command_queue::By::Req,
                ),
    {
        assert forall|i: int|
            0 <= i < self@.queues.len() implies crate::passthrough_queue::command_queue::ordered(
            (#[trigger] self@.queues[i]).ready,
            crate::passthrough_queue::command_queue::By::Req,
        ) by {
            assert(self.queues@[i].wf());
        }
    }

    /// No queues.
    pub fn new() -> (s: Self)
        ensures
            s.wf(),
            s@ == no_queues(),
    {
        let s = McuState { index: IdIndex::new(), queues: Vec::new(), next_id: 0 };
        proof {
            assert(s@.queues =~= Seq::<QueueView>::empty());
        }
        s
    }

    /// Whether there are identifiers left for more queues.
    pub fn has_room(&self) -> (r: bool)
        ensures
            r == (self@.next_id < u32::MAX),
    {
        self.next_id < u32::MAX
    }

    /// A new queue.
    pub fn alloc_command_queue(&mut self) -> (id: CommandQueueId)
        requires
            old(self).wf(),
            old(self)@.next_id < u32::MAX,
        ensures
            final(self).wf(),
            id.0 == old(self)@.next_id,
            !old(self)@.ids.contains(id.0),
            final(self)@ == (McuStateView {
                ids: old(self)@.ids.push(id.0),
                queues: old(self)@.queues.push(empty_queue()),
                next_id: (old(self)@.next_id + 1) as u32,
            }),
    {
        let id: u32 = self.next_id;
        self.next_id += 1;
        let ghost qs = queue_views(self.queues@);
        self.index.insert(id);
        let q: CommandQueue = CommandQueue::new();
        self.queues.push(q);
        proof {
            assert(queue_views(self.queues@) =~= qs.push(empty_queue()));
        }
        CommandQueueId(id)
    }

    /// Queues an entry.
    pub fn push(&mut self, queue_id: CommandQueueId, entry: PassthroughEntry) -> (r: Result<
        (),
        PushError,
    >)
        requires
            old(self).wf(),
        ensures
            final(self).wf(),
            match r {
                Ok(_) => state_pushed(old(self)@, queue_id.0, entry@) == Ok::<_, PushError>(
                    final(self)@,
                ),
                Err(e) => state_pushed(old(self)@, queue_id.0, entry@) == Err::<McuStateView, _>(e)
                    && final(self)@ == old(self)@,
            },
    {
        match self.index.find(queue_id.0) {
            None => Err(PushError::UnknownQueue(queue_id)),
            Some(i) => {
                let ghost qs = queue_views(self.queues@);
                let ghost ev = entry@;
                proof {
                    let k = self.index@.index_of(queue_id.0);
                    assert(self.index@[i as int] == queue_id.0);
                    assert(self.index@.contains(queue_id.0));
                    assert(self.index@[k] == queue_id.0);
                    assert(k == i);
                }
                self.queues[i].push(entry);
                proof {
                    assert(queue_views(self.queues@) =~= qs.update(
                        i as int,
                        pushed(qs[i as int], ev),
                    ));
                }
                Ok(())
            },
        }
    }

    /// Sets the clock of every queue.
    pub fn promote_all(&mut self, ack_clock: u64)
        requires
            old(self).wf(),
        ensures
            final(self).wf(),
            final(self)@ == state_promoted(old(self)@, ack_clock),
    {
        let ghost before = self@;
        let mut i: usize = 0;
        while i < self.queues.len()
            invariant
                self.wf(),
                i <= self.queues@.len(),
                self@.ids == before.ids,
                self@.next_id == before.next_id,
                self@.queues.len() == before.queues.len(),
                forall|j: int|
                    0 <= j < i ==> #[trigger] self@.queues[j] == promoted(
                        before.queues[j],
                        ack_clock,
                    ),
                forall|j: int|
                    i <= j < before.queues.len() ==> #[trigger] self@.queues[j]
                        == before.queues[j],
            decreases self.queues@.len() - i,
        {
            let ghost was = self.queues@;
            let ghost wasv = self@.queues;
            proof {
                assert(wasv[i as int] == was[i as int]@);
            }
            self.queues[i].promote(ack_clock);
            proof {
                assert forall|j: int| 0 <= j < was.len() && j != i implies #[trigger] self@.queues[j]
                    == wasv[j] by {
                    assert(self.queues@[j] == was[j]);
                }
                assert(self@.queues[i as int] == self.queues@[i as int]@);
            }
            i += 1;
        }
        proof {
            assert(self@.queues =~= state_promoted(before, ack_clock).queues);
        }
    }

    /// Whether some queue has a ready entry that is not of background
    /// priority.
    fn has_urgent(&self) -> (r: bool)
        ensures
            r == any_urgent(self@.queues),
    {
        let mut i: usize = 0;
        while i < self.queues.len()
            invariant
                i <= self.queues@.len(),
                forall|j: int| 0 <= j < i ==> !urgent(#[trigger] self@.queues[j]),
            decreases self.queues@.len() - i,
        {
            proof {
                assert(self@.queues[i as int] == self.queues@[i as int]@);
            }
            if self.queues[i].has_non_background_ready() {
                return true;
            }
            i += 1;
        }
        false
    }

    /// The queue whose entry goes next.
    fn find_best(&self) -> (r: Option<usize>)
        ensures
            match r {
                Some(i) => best(self@.queues, any_urgent(self@.queues)) == Some(i as int) && i
                    < self@.queues.len(),
                None => best(self@.queues, any_urgent(self@.queues)) is None,
            },
    {
        let skip: bool = self.has_urgent();
        let ghost qs = self@.queues;
        let mut found: Option<(usize, u64)> = None;
        let mut i: usize = 0;
        while i < self.queues.len()
            invariant
                i <= self.queues@.len(),
                qs == self@.queues,
                match found {
                    Some(f) => best(qs.take(i as int), skip) == Some(f.0 as int) && f.0 < i && f.1
                        == qs[f.0 as int].ready[0].req_clock,
                    None => best(qs.take(i as int), skip) is None,
                },
            decreases self.queues@.len() - i,
        {
            proof {
                assert(qs[i as int] == self.queues@[i as int]@);
                assert(qs.take(i + 1).drop_last() =~= qs.take(i as int));
                assert(qs.take(i + 1).last() == qs[i as int]);
            }
            match self.queues[i].peek_ready_req_clock() {
                Some(rc) => {
                    if !(skip && rc == BACKGROUND_PRIORITY_CLOCK) {
                        match found {
                            Some(f) => {
                                if rc < f.1 {
                                    found = Some((i, rc));
                                }
                            },
                            None => {
                                found = Some((i, rc));
                            },
                        }
                    }
                },
                None => {},
            }
            i += 1;
        }
        proof {
            assert(qs.take(qs.len() as int) =~= qs);
        }
        match found {
            Some(f) => Some(f.0),
            None => None,
        }
    }

    /// Takes the entry that goes next. Background entries go only when no
    /// other is ready in any queue.
    pub fn pop_next(&mut self) -> (r: Option<PassthroughEntry>)
        requires
            old(self).wf(),
        ensures
            final(self).wf(),
            final(self)@ == state_popped(old(self)@).1,
            match r {
                Some(e) => state_popped(old(self)@).0 == Some(e@),
                None => state_popped(old(self)@).0 is None,
            },
    {
        match self.find_best() {
            None => None,
            Some(i) => {
                let ghost qs = self@.queues;
                proof {
                    lemma_best(qs, any_urgent(qs));
                    assert(qs[i as int] == self.queues@[i as int]@);
                }
                let r: Option<PassthroughEntry> = self.queues[i].pop_ready();
                proof {
                    assert(self@.queues =~= qs.update(
                        i as int,
                        QueueView { ready: qs[i as int].ready.skip(1), ..qs[i as int] },
                    ));
                }
                r
            },
        }
    }

    /// Whether nothing is ready in any queue.
    pub fn is_all_ready_empty(&self) -> (r: bool)
        ensures
            r == (forall|i: int|
                0 <= i < self@.queues.len() ==> (#[trigger] self@.queues[i]).ready.len() == 0),
    {
        let mut i: usize = 0;
        while i < self.queues.len()
            invariant
                i <= self.queues@.len(),
                forall|j: int| 0 <= j < i ==> (#[trigger] self@.queues[j]).ready.len() == 0,
            decreases self.queues@.len() - i,
        {
            proof {
                assert(self@.queues[i as int] == self.queues@[i as int]@);
            }
            if !self.queues[i].is_ready_empty() {
                return false;
            }
            i += 1;
        }
        true
    }

    /// The bytes of all ready entries, modulo 2^64.
    pub fn total_ready_bytes(&self) -> (r: u64)
        ensures
            r == ready_total(self@.queues) % 0x1_0000_0000_0000_0000,
    {
        let ghost qs = self@.queues;
        let mut sum: u64 = 0;
        let mut i: usize = 0;
        while i < self.queues.len()
            invariant
                i <= self.queues@.len(),
                qs == self@.queues,
                sum == ready_total(qs.take(i as int)) % 0x1_0000_0000_0000_0000,
            decreases self.queues@.len() - i,
        {
            proof {
                assert(qs[i as int] == self.queues@[i as int]@);
                assert(qs.take(i + 1).drop_last() =~= qs.take(i as int));
                assert(qs.take(i + 1).last() == qs[i as int]);
            }
            sum = sum.wrapping_add(self.queues[i].ready_bytes());
            i += 1;
        }
        proof {
            assert(qs.take(qs.len() as int) =~= qs);
        }
        sum
    }

    /// The bytes of all entries that wait, modulo 2^64.
    pub fn total_upcoming_bytes(&self) -> (r: u64)
        ensures
            r == upcoming_total(self@.queues) % 0x1_0000_0000_0000_0000,
    {
        let ghost qs = self@.queues;
        let mut sum: u64 = 0;
        let mut i: usize = 0;
        while i < self.queues.len()
            invariant
                i <= self.queues@.len(),
                qs == self@.queues,
                sum == upcoming_total(qs.take(i as int)) % 0x1_0000_0000_0000_0000,
            decreases self.queues@.len() - i,
        {
            proof {
                assert(qs[i as int] == self.queues@[i as int]@);
                assert(qs.take(i + 1).drop_last() =~= qs.take(i as int));
                assert(qs.take(i + 1).last() == qs[i as int]);
            }
            sum = sum.wrapping_add(self.queues[i].upcoming_bytes());
            i += 1;
        }
        proof {
            assert(qs.take(qs.len() as int) =~= qs);
        }
        sum
    }

    /// The clock of the entry that goes next.
    pub fn peek_next_req_clock(&self) -> (r: Option<u64>)
        ensures
            r == (match state_popped(self@).0 {
                Some(e) => Some(e.req_clock),
                None => None,
            }),
    {
        match self.find_best() {
            None => None,
            Some(i) => {
                proof {
                    lemma_best(self@.queues, any_urgent(self@.queues));
                    assert(self@.queues[i as int] == self.queues@[i as int]@);
                }
                self.queues[i].peek_ready_req_clock()
            },
        }
    }
}

impl Default for McuState {
    fn default() -> (s: Self)
        ensures
            s.wf(),
            s@ == no_queues(),
    {
        McuState::new()
    }
}

} // verus!
