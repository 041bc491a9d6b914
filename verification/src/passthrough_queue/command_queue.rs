//! One queue of messages: those that wait for their clock, and those that are
//! ready to go.

use crate::passthrough_queue::entry::{EntryView, PassthroughEntry, BACKGROUND_PRIORITY_CLOCK};
use vstd::prelude::*;

verus! {

/// Messages that wait, by `min_clock`, and messages that are ready, by
/// `req_clock`.
#[derive(Debug)]
pub struct CommandQueue {
    upcoming: Vec<PassthroughEntry>,
    ready: Vec<PassthroughEntry>,
    ack_clock: u64,
}

/// Model of [`CommandQueue`].
#[verifier::ext_equal]
pub struct QueueView {
    pub upcoming: Seq<EntryView>,
    pub ready: Seq<EntryView>,
    pub ack_clock: u64,
}

/// Entries, as models.
pub open spec fn entry_views(v: Seq<PassthroughEntry>) -> Seq<EntryView> {
    Seq::new(v.len(), |i: int| v[i]@)
}

impl View for CommandQueue {
    type V = QueueView;

    closed spec fn view(&self) -> QueueView {
        QueueView {
            upcoming: entry_views(self.upcoming@),
            ready: entry_views(self.ready@),
            ack_clock: self.ack_clock,
        }
    }
}

/// The two orders of entries.
#[derive(Clone, Copy, PartialEq, Eq, Structural)]
pub enum By {
    Min,
    Req,
}

/// The clock that an order goes by.
pub open spec fn key(e: EntryView, by: By) -> u64 {
    match by {
        By::Min => e.min_clock,
        By::Req => e.req_clock,
    }
}

/// Whether entries stand in order.
pub open spec fn ordered(s: Seq<EntryView>, by: By) -> bool {
    forall|i: int, j: int| 0 <= i < j < s.len() ==> key(s[i], by) <= key(s[j], by)
}

/// The place behind the last entry whose clock is at most `c`.
pub open spec fn place(s: Seq<EntryView>, by: By, c: u64) -> nat
    decreases s.len(),
{
    if s.len() == 0 {
        0
    } else if key(s.last(), by) <= c {
        s.len()
    } else {
        place(s.drop_last(), by, c)
    }
}

/// An ordered run with one entry more, behind those with the same clock.
pub open spec fn inserted(s: Seq<EntryView>, by: By, e: EntryView) -> Seq<EntryView> {
    s.insert(place(s, by, key(e, by)) as int, e)
}

/// An ordered run with several entries more, one after the other.
pub open spec fn inserted_all(s: Seq<EntryView>, by: By, es: Seq<EntryView>) -> Seq<EntryView>
    decreases es.len(),
{
    if es.len() == 0 {
        s
    } else {
        inserted(inserted_all(s, by, es.drop_last()), by, es.last())
    }
}

/// The place splits an ordered run: what stands before it has a clock of at
/// most `c`, what stands from it on a later one.
pub proof fn lemma_place(s: Seq<EntryView>, by: By, c: u64)
    requires
        ordered(s, by),
    ensures
        place(s, by, c) <= s.len(),
        forall|i: int| 0 <= i < place(s, by, c) ==> key(#[trigger] s[i], by) <= c,
        forall|i: int| place(s, by, c) <= i < s.len() ==> key(#[trigger] s[i], by) > c,
    decreases s.len(),
{
    if s.len() > 0 {
        let n = s.len() - 1;
        if key(s.last(), by) > c {
            let t = s.drop_last();
            lemma_place(t, by, c);
            assert forall|i: int| 0 <= i < n implies #[trigger] s[i] == t[i] by {}
        } else {
            assert forall|i: int| 0 <= i < s.len() implies key(#[trigger] s[i], by) <= c by {
                if i < n {
                    assert(key(s[i], by) <= key(s[n], by));
                }
            }
        }
    }
}

/// A run stays ordered when an entry is added to it.
pub proof fn lemma_inserted(s: Seq<EntryView>, by: By, e: EntryView)
    requires
        ordered(s, by),
    ensures
        ordered(inserted(s, by, e), by),
{
    lemma_place(s, by, key(e, by));
    let p = place(s, by, key(e, by)) as int;
    let t = inserted(s, by, e);
    assert forall|i: int, j: int| 0 <= i < j < t.len() implies key(t[i], by) <= key(t[j], by) by {
        assert(t[i] == if i < p {
            s[i]
        } else if i == p {
            e
        } else {
            s[i - 1]
        });
        assert(t[j] == if j < p {
            s[j]
        } else if j == p {
            e
        } else {
            s[j - 1]
        });
    }
}

/// A queue with one entry more: ready if its clock has come.
pub open spec fn pushed(q: QueueView, e: EntryView) -> QueueView {
    if e.min_clock <= q.ack_clock {
        QueueView { ready: inserted(q.ready, By::Req, e), ..q }
    } else {
        QueueView { upcoming: inserted(q.upcoming, By::Min, e), ..q }
    }
}

/// A queue at another clock: what its clock has come for is ready.
pub open spec fn promoted(q: QueueView, ack_clock: u64) -> QueueView {
    let n = place(q.upcoming, By::Min, ack_clock) as int;
    QueueView {
        upcoming: q.upcoming.skip(n),
        ready: inserted_all(q.ready, By::Req, q.upcoming.take(n)),
        ack_clock,
    }
}

/// Whether the first ready entry is not of background priority.
pub open spec fn urgent(q: QueueView) -> bool {
    q.ready.len() > 0 && q.ready[0].req_clock != BACKGROUND_PRIORITY_CLOCK
}

/// The bytes of all entries.
pub open spec fn total_bytes(s: Seq<EntryView>) -> nat
    decreases s.len(),
{
    if s.len() == 0 {
        0
    } else {
        total_bytes(s.drop_last()) + s.last().bytes.len()
    }
}

/// Adds an entry to an ordered run.
fn insert_by(v: &mut Vec<PassthroughEntry>, by: By, entry: PassthroughEntry)
    ensures
        entry_views(final(v)@) == inserted(entry_views(old(v)@), by, entry@),
{
    let c: u64 = match by {
        By::Min => entry.min_clock(),
        By::Req => entry.req_clock(),
    };
    let ghost s = entry_views(v@);
    let mut i: usize = v.len();
    proof {
        assert(s.take(s.len() as int) =~= s);
    }
    loop
        invariant
            i <= v@.len(),
            s == entry_views(v@),
            c == key(entry@, by),
            place(s, by, c) == place(s.take(i as int), by, c),
        ensures
            i == place(s, by, c),
        decreases i,
    {
        if i == 0 {
            break;
        }
        let k: u64 = match by {
            By::Min => v[i - 1].min_clock(),
            By::Req => v[i - 1].req_clock(),
        };
        proof {
            assert(s.take(i as int).last() == v@[i - 1]@);
            assert(s.take(i as int).drop_last() =~= s.take(i - 1));
        }
        if k <= c {
            break;
        }
        i -= 1;
    }
    v.insert(i, entry);
    proof {
        assert(entry_views(v@) =~= inserted(s, by, entry@));
    }
}

/// Adds up the bytes of entries, modulo 2^64.
fn sum_bytes(v: &Vec<PassthroughEntry>) -> (r: u64)
    ensures
        r == total_bytes(entry_views(v@)) % 0x1_0000_0000_0000_0000,
{
    let ghost s = entry_views(v@);
    let mut sum: u64 = 0;
    let mut i: usize = 0;
    while i < v.len()
        invariant
            i <= v@.len(),
            s == entry_views(v@),
            sum == total_bytes(s.take(i as int)) % 0x1_0000_0000_0000_0000,
        decreases v@.len() - i,
    {
        let n: u64 = v[i].bytes().len() as u64;
        proof {
            assert(s.take(i + 1).drop_last() =~= s.take(i as int));
            assert(s.take(i + 1).last() == v@[i as int]@);
        }
        sum = sum.wrapping_add(n);
        i += 1;
    }
    proof {
        assert(s.take(s.len() as int) =~= s);
    }
    sum
}

impl CommandQueue {
    /// Whether both runs stand in order.
    pub open spec fn wf(&self) -> bool {
        ordered(self@.upcoming, By::Min) && ordered(self@.ready, By::Req)
    }

    /// An empty queue at clock zero.
    pub fn new() -> (q: Self)
        ensures
            q.wf(),
            q@ == (QueueView { upcoming: Seq::empty(), ready: Seq::empty(), ack_clock: 0 }),
    {
        let q = CommandQueue { upcoming: Vec::new(), ready: Vec::new(), ack_clock: 0 };
        proof {
            assert(q@.upcoming =~= Seq::<EntryView>::empty());
            assert(q@.ready =~= Seq::<EntryView>::empty());
        }
        q
    }

    /// Adds an entry: to the ready ones if its clock has come, else to those
    /// that wait.
    pub fn push(&mut self, entry: PassthroughEntry)
        requires
            old(self).wf(),
        ensures
            final(self).wf(),
            final(self)@ == pushed(old(self)@, entry@),
    {
        proof {
            lemma_inserted(self@.ready, By::Req, entry@);
            lemma_inserted(self@.upcoming, By::Min, entry@);
        }
        if entry.min_clock() <= self.ack_clock {
            insert_by(&mut self.ready, By::Req, entry);
        } else {
            insert_by(&mut self.upcoming, By::Min, entry);
        }
    }

    /// Sets the clock and moves the entries whose clock has come to the ready
    /// ones.
    pub fn promote(&mut self, ack_clock: u64)
        requires
            old(self).wf(),
        ensures
            final(self).wf(),
            final(self)@ == promoted(old(self)@, ack_clock),
    {
        let ghost up = self@.upcoming;
        let ghost ready = self@.ready;
        let ghost n = place(up, By::Min, ack_clock) as int;
        proof {
            lemma_place(up, By::Min, ack_clock);
            assert(up.skip(0) =~= up);
            assert(up.take(0) =~= Seq::<EntryView>::empty());
        }
        self.ack_clock = ack_clock;
        let ghost mut k: int = 0;
        while self.upcoming.len() > 0 && self.upcoming[0].min_clock() <= ack_clock
            invariant
                0 <= k <= n <= up.len(),
                n == place(up, By::Min, ack_clock),
                forall|i: int| 0 <= i < n ==> key(#[trigger] up[i], By::Min) <= ack_clock,
                forall|i: int| n <= i < up.len() ==> key(#[trigger] up[i], By::Min) > ack_clock,
                self@ == (QueueView {
                    upcoming: up.skip(k),
                    ready: inserted_all(ready, By::Req, up.take(k)),
                    ack_clock,
                }),
                ordered(self@.ready, By::Req),
            decreases up.len() - k,
        {
            proof {
                assert(self@.upcoming.len() == self.upcoming@.len());
                assert(up.skip(k).len() == up.len() - k);
                assert(self@.upcoming[0] == self.upcoming@[0]@);
                assert(up.skip(k)[0] == up[k]);
            }
            let ghost was = self@.upcoming;
            let ghost raw = self.upcoming@;
            let e: PassthroughEntry = self.upcoming.remove(0);
            proof {
                assert(e@ == up[k]);
                assert forall|i: int| 0 <= i < raw.len() - 1 implies #[trigger] self@.upcoming[i]
                    == up.skip(k + 1)[i] by {
                    assert(self.upcoming@[i] == raw[i + 1]);
                    assert(was[i + 1] == raw[i + 1]@);
                    assert(was[i + 1] == up[k + 1 + i]);
                }
                assert(self@.upcoming =~= up.skip(k + 1));
                assert(up.take(k + 1).drop_last() =~= up.take(k));
                lemma_inserted(self@.ready, By::Req, e@);
            }
            insert_by(&mut self.ready, By::Req, e);
            proof {
                k = k + 1;
            }
        }
        proof {
            assert(self@.upcoming.len() == self.upcoming@.len());
            assert(up.skip(k).len() == up.len() - k);
            if self.upcoming@.len() > 0 {
                assert(self@.upcoming[0] == self.upcoming@[0]@);
                assert(up.skip(k)[0] == up[k]);
            }
            assert(k == n);
            let left = up.skip(n);
            assert forall|i: int, j: int| 0 <= i < j < left.len() implies key(left[i], By::Min)
                <= key(left[j], By::Min) by {
                assert(left[i] == up[i + n] && left[j] == up[j + n]);
            }
        }
    }

    /// Takes the first ready entry.
    pub fn pop_ready(&mut self) -> (r: Option<PassthroughEntry>)
        requires
            old(self).wf(),
        ensures
            final(self).wf(),
            match r {
                Some(e) => old(self)@.ready.len() > 0 && e@ == old(self)@.ready[0] && final(self)@
                    == (QueueView { ready: old(self)@.ready.skip(1), ..old(self)@ }),
                None => old(self)@.ready.len() == 0 && final(self)@ == old(self)@,
            },
    {
        if self.ready.len() == 0 {
            None
        } else {
            let ghost was = self@.ready;
            let e: PassthroughEntry = self.ready.remove(0);
            proof {
                assert(self@.ready =~= was.skip(1));
                let left = was.skip(1);
                assert forall|i: int, j: int| 0 <= i < j < left.len() implies key(
                    left[i],
                    By::Req,
                ) <= key(left[j], By::Req) by {
                    assert(left[i] == was[i + 1] && left[j] == was[j + 1]);
                }
            }
            Some(e)
        }
    }

    /// The clock of the first ready entry.
    pub fn peek_ready_req_clock(&self) -> (r: Option<u64>)
        ensures
            r == (if self@.ready.len() > 0 {
                Some(self@.ready[0].req_clock)
            } else {
                None
            }),
    {
        if self.ready.len() == 0 {
            None
        } else {
            Some(self.ready[0].req_clock())
        }
    }

    /// Whether nothing is ready.
    pub fn is_ready_empty(&self) -> (r: bool)
        ensures
            r == (self@.ready.len() == 0),
    {
        self.ready.len() == 0
    }

    /// Whether an entry is ready that is not of background priority.
    pub fn has_non_background_ready(&self) -> (r: bool)
        ensures
            r == urgent(self@),
    {
        self.ready.len() > 0 && self.ready[0].req_clock() != BACKGROUND_PRIORITY_CLOCK
    }

    /// Whether entries are ready, all of them of background priority.
    pub fn has_only_background_ready(&self) -> (r: bool)
        ensures
            r == (self@.ready.len() > 0 && !urgent(self@)),
    {
        self.ready.len() > 0 && !self.has_non_background_ready()
    }

    /// The bytes of the ready entries, modulo 2^64.
    pub fn ready_bytes(&self) -> (r: u64)
        ensures
            r == total_bytes(self@.ready) % 0x1_0000_0000_0000_0000,
    {
        sum_bytes(&self.ready)
    }

    /// The bytes of the entries that wait, modulo 2^64.
    pub fn upcoming_bytes(&self) -> (r: u64)
        ensures
            r == total_bytes(self@.upcoming) % 0x1_0000_0000_0000_0000,
    {
        sum_bytes(&self.upcoming)
    }
}

impl Default for CommandQueue {
    fn default() -> (q: Self)
        ensures
            q.wf(),
            q@ == (QueueView { upcoming: Seq::empty(), ready: Seq::empty(), ack_clock: 0 }),
    {
        CommandQueue::new()
    }
}

/// The entry that goes first has the lowest clock of all that are ready; and
/// if it is of background priority, then they all are.
pub proof fn law_lowest_first(q: QueueView, i: int)
    requires
        ordered(q.ready, By::Req),
        0 <= i < q.ready.len(),
    ensures
        q.ready[0].req_clock <= q.ready[i].req_clock,
        !urgent(q) ==> q.ready[i].req_clock == BACKGROUND_PRIORITY_CLOCK,
{
    if i > 0 {
        assert(key(q.ready[0], By::Req) <= key(q.ready[i], By::Req));
    }
}

} // verus!
