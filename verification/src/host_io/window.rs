//! Frames that wait for an acknowledgement, and calls that wait for a
//! response.

use crate::text::{copy_text, same_text};
use crate::transport::{TransportError, TransportErrorView};
use vstd::prelude::*;

verus! {

/// How many frames may be unacknowledged.
pub const MAX_PENDING_BLOCKS: usize = 12;

/// How many calls may wait for a response.
pub const AWAITING_CEILING: usize = 1024;

/// A frame that was sent and is not acknowledged yet.
#[derive(Debug)]
pub struct UnackedEntry {
    pub seq: u64,
    pub frame_bytes: Vec<u8>,
    pub sent_at: u64,
    pub retry_count: u32,
}

/// Model of [`UnackedEntry`].
#[verifier::ext_equal]
pub struct UnackedView {
    pub seq: u64,
    pub frame_bytes: Seq<u8>,
    pub sent_at: u64,
    pub retry_count: u32,
}

impl View for UnackedEntry {
    type V = UnackedView;

    open spec fn view(&self) -> UnackedView {
        UnackedView {
            seq: self.seq,
            frame_bytes: self.frame_bytes@,
            sent_at: self.sent_at,
            retry_count: self.retry_count,
        }
    }
}

/// Unacknowledged frames, as models.
pub open spec fn unacked_views(v: Seq<UnackedEntry>) -> Seq<UnackedView> {
    Seq::new(v.len(), |i: int| v[i]@)
}

/// The unacknowledged frames, in the order they were sent.
#[derive(Debug)]
pub struct UnackedWindow {
    entries: Vec<UnackedEntry>,
}

impl View for UnackedWindow {
    type V = Seq<UnackedView>;

    closed spec fn view(&self) -> Seq<UnackedView> {
        unacked_views(self.entries@)
    }
}

/// How many frames at the front lie before a sequence.
pub open spec fn acked_count(w: Seq<UnackedView>, rseq: u64) -> nat
    decreases w.len(),
{
    if w.len() == 0 || w[0].seq >= rseq {
        0
    } else {
        1 + acked_count(w.skip(1), rseq)
    }
}

/// Frames, one row of bytes each.
pub open spec fn frame_rows(w: Seq<UnackedView>) -> Seq<Seq<u8>> {
    Seq::new(w.len(), |i: int| w[i].frame_bytes)
}

pub proof fn lemma_acked_count(w: Seq<UnackedView>, rseq: u64)
    ensures
        acked_count(w, rseq) <= w.len(),
        forall|i: int| 0 <= i < acked_count(w, rseq) ==> (#[trigger] w[i]).seq < rseq,
        acked_count(w, rseq) < w.len() ==> w[acked_count(w, rseq) as int].seq >= rseq,
    decreases w.len(),
{
    if w.len() > 0 && w[0].seq < rseq {
        let t = w.skip(1);
        lemma_acked_count(t, rseq);
        assert forall|i: int| 0 <= i < acked_count(w, rseq) implies (#[trigger] w[i]).seq < rseq by {
            if i > 0 {
                assert(t[i - 1] == w[i]);
            }
        }
        if acked_count(w, rseq) < w.len() {
            assert(t[acked_count(t, rseq) as int] == w[acked_count(w, rseq) as int]);
        }
    }
}

/// An acknowledgement frees exactly the frames before its sequence, as long
/// as the frames are numbered upwards.
pub proof fn law_acked_prefix(w: Seq<UnackedView>, rseq: u64, i: int)
    requires
        forall|a: int, b: int| 0 <= a < b < w.len() ==> w[a].seq < w[b].seq,
        0 <= i < w.len(),
    ensures
        (i < acked_count(w, rseq)) == (w[i].seq < rseq),
{
    lemma_acked_count(w, rseq);
    let n = acked_count(w, rseq) as int;
    if i > n {
        assert(w[n].seq < w[i].seq);
    }
}

impl UnackedWindow {
    /// No frames.
    pub fn new() -> (w: Self)
        ensures
            w@ == Seq::<UnackedView>::empty(),
    {
        let w = UnackedWindow { entries: Vec::new() };
        proof {
            assert(w@ =~= Seq::<UnackedView>::empty());
        }
        w
    }

    /// How many frames there are.
    pub fn len(&self) -> (n: usize)
        ensures
            n == self@.len(),
    {
        self.entries.len()
    }

    /// Whether there are none.
    pub fn is_empty(&self) -> (r: bool)
        ensures
            r == (self@.len() == 0),
    {
        self.entries.len() == 0
    }

    /// Whether no more may be sent.
    pub fn is_full(&self) -> (r: bool)
        ensures
            r == (self@.len() >= MAX_PENDING_BLOCKS),
    {
        self.entries.len() >= MAX_PENDING_BLOCKS
    }

    /// The oldest frame.
    pub fn front(&self) -> (r: Option<&UnackedEntry>)
        ensures
            match r {
                Some(e) => self@.len() > 0 && e@ == self@[0],
                None => self@.len() == 0,
            },
    {
        if self.entries.len() == 0 {
            None
        } else {
            Some(&self.entries[0])
        }
    }

    /// Adds a frame that was sent.
    pub fn push(&mut self, entry: UnackedEntry)
        requires
            old(self)@.len() < MAX_PENDING_BLOCKS,
        ensures
            final(self)@ == old(self)@.push(entry@),
    {
        let ghost e = entry@;
        self.entries.push(entry);
        proof {
            assert(self@ =~= old(self)@.push(e));
        }
    }

    /// Takes out the frames at the front that lie before `rseq`.
    pub fn pop_acked(&mut self, rseq: u64) -> (r: Vec<UnackedEntry>)
        ensures
            unacked_views(r@) == old(self)@.take(acked_count(old(self)@, rseq) as int),
            final(self)@ == old(self)@.skip(acked_count(old(self)@, rseq) as int),
    {
        let ghost all = self@;
        let mut popped: Vec<UnackedEntry> = Vec::new();
        proof {
            assert(all.skip(0) =~= all);
            assert(unacked_views(popped@) =~= all.take(0));
        }
        while self.entries.len() > 0 && self.entries[0].seq < rseq
            invariant
                popped@.len() <= all.len(),
                unacked_views(popped@) == all.take(popped@.len() as int),
                self@ == all.skip(popped@.len() as int),
                popped@.len() + acked_count(self@, rseq) == acked_count(all, rseq),
            decreases self@.len(),
        {
            let ghost was = self@;
            let ghost k = popped@.len() as int;
            let ghost raw = self.entries@;
            proof {
                assert(was[0] == raw[0]@);
            }
            let e: UnackedEntry = self.entries.remove(0);
            let ghost ev = e@;
            let ghost before = unacked_views(popped@);
            popped.push(e);
            proof {
                assert(self@ =~= was.skip(1));
                assert(was.skip(1) =~= all.skip(k + 1));
                assert(ev == all[k]);
                assert(unacked_views(popped@) =~= before.push(ev));
                assert(all.take(k + 1) =~= all.take(k).push(all[k]));
            }
        }
        proof {
            if self.entries@.len() > 0 {
                assert(self@[0] == self.entries@[0]@);
            }
            assert(acked_count(self@, rseq) == 0);
        }
        popped
    }

    /// The frames in order.
    pub fn iter(&self) -> (r: Vec<&UnackedEntry>)
        ensures
            r@.len() == self@.len(),
            forall|i: int| 0 <= i < r@.len() ==> (#[trigger] r@[i])@ == self@[i],
    {
        let mut out: Vec<&UnackedEntry> = Vec::new();
        let mut i: usize = 0;
        while i < self.entries.len()
            invariant
                i <= self.entries@.len(),
                i == out@.len(),
                forall|j: int| 0 <= j < i ==> (#[trigger] out@[j])@ == self@[j],
            decreases self.entries@.len() - i,
        {
            out.push(&self.entries[i]);
            i += 1;
        }
        out
    }

    /// The frame at a position.
    pub fn iter_mut(&mut self, i: usize) -> (r: &mut UnackedEntry)
        requires
            i < old(self)@.len(),
        ensures
            r@ == old(self)@[i as int],
            final(self)@ == old(self)@.update(i as int, final(r)@),
    {
        &mut self.entries[i]
    }

    /// Drops all frames.
    pub fn clear(&mut self)
        ensures
            final(self)@ == Seq::<UnackedView>::empty(),
    {
        self.entries.clear();
        proof {
            assert(self@ =~= Seq::<UnackedView>::empty());
        }
    }
}

impl Default for UnackedWindow {
    fn default() -> (w: Self)
        ensures
            w@ == Seq::<UnackedView>::empty(),
    {
        UnackedWindow::new()
    }
}

/// A call that waits for a response. Its caller is known by `call_id`.
#[derive(Debug)]
pub struct AwaitEntry {
    pub call_id: u64,
    pub seq: u64,
    pub expected_response_name: String,
    pub submitted_at: u64,
    pub deadline: u64,
    pub abandoned: bool,
}

/// Model of [`AwaitEntry`].
#[verifier::ext_equal]
pub struct AwaitView {
    pub call_id: u64,
    pub seq: u64,
    pub expected_response_name: Seq<char>,
    pub submitted_at: u64,
    pub deadline: u64,
    pub abandoned: bool,
}

impl View for AwaitEntry {
    type V = AwaitView;

    open spec fn view(&self) -> AwaitView {
        AwaitView {
            call_id: self.call_id,
            seq: self.seq,
            expected_response_name: self.expected_response_name@,
            submitted_at: self.submitted_at,
            deadline: self.deadline,
            abandoned: self.abandoned,
        }
    }
}

/// Waiting calls, as models.
pub open spec fn await_views(v: Seq<AwaitEntry>) -> Seq<AwaitView> {
    Seq::new(v.len(), |i: int| v[i]@)
}

/// The calls that wait for a response, in the order they were made.
#[derive(Debug)]
pub struct AwaitingResponse {
    entries: Vec<AwaitEntry>,
}

impl View for AwaitingResponse {
    type V = Seq<AwaitView>;

    closed spec fn view(&self) -> Seq<AwaitView> {
        await_views(self.entries@)
    }
}

/// Whether a call waits for a response of this name and is not abandoned.
pub open spec fn waits_for(e: AwaitView, name: Seq<char>) -> bool {
    !e.abandoned && e.expected_response_name == name
}

/// The oldest call that waits for a response of this name.
pub open spec fn first_waiting(s: Seq<AwaitView>, name: Seq<char>) -> Option<int>
    decreases s.len(),
{
    if s.len() == 0 {
        None
    } else if waits_for(s[0], name) {
        Some(0)
    } else {
        match first_waiting(s.skip(1), name) {
            Some(i) => Some(i + 1),
            None => None,
        }
    }
}

/// The oldest call with a number.
pub open spec fn first_call(s: Seq<AwaitView>, call_id: u64) -> Option<int>
    decreases s.len(),
{
    if s.len() == 0 {
        None
    } else if s[0].call_id == call_id {
        Some(0)
    } else {
        match first_call(s.skip(1), call_id) {
            Some(i) => Some(i + 1),
            None => None,
        }
    }
}

/// The calls with one of them abandoned.
pub open spec fn abandoned(s: Seq<AwaitView>, call_id: u64) -> Seq<AwaitView> {
    match first_call(s, call_id) {
        Some(i) => s.update(i, AwaitView { abandoned: true, ..s[i] }),
        None => s,
    }
}

/// The calls whose deadline has come, in order.
pub open spec fn expired(s: Seq<AwaitView>, now: u64) -> Seq<AwaitView>
    decreases s.len(),
{
    if s.len() == 0 {
        Seq::empty()
    } else if now >= s.last().deadline {
        expired(s.drop_last(), now).push(s.last())
    } else {
        expired(s.drop_last(), now)
    }
}

/// The calls whose deadline has not come, in order.
pub open spec fn unexpired(s: Seq<AwaitView>, now: u64) -> Seq<AwaitView>
    decreases s.len(),
{
    if s.len() == 0 {
        Seq::empty()
    } else if now >= s.last().deadline {
        unexpired(s.drop_last(), now)
    } else {
        unexpired(s.drop_last(), now).push(s.last())
    }
}

proof fn lemma_first_waiting_at(s: Seq<AwaitView>, name: Seq<char>, k: int)
    requires
        0 <= k <= s.len(),
        forall|j: int| 0 <= j < k ==> !waits_for(#[trigger] s[j], name),
    ensures
        k < s.len() && waits_for(s[k], name) ==> first_waiting(s, name) == Some(k),
        k == s.len() ==> first_waiting(s, name) is None,
    decreases s.len(),
{
    if k > 0 {
        let t = s.skip(1);
        assert forall|j: int| 0 <= j < k - 1 implies !waits_for(#[trigger] t[j], name) by {
            assert(t[j] == s[j + 1]);
        }
        lemma_first_waiting_at(t, name, k - 1);
        assert(!waits_for(s[0], name));
        if k < s.len() {
            assert(t[k - 1] == s[k]);
        }
    }
}

proof fn lemma_first_call_at(s: Seq<AwaitView>, call_id: u64, k: int)
    requires
        0 <= k <= s.len(),
        forall|j: int| 0 <= j < k ==> (#[trigger] s[j]).call_id != call_id,
    ensures
        k < s.len() && s[k].call_id == call_id ==> first_call(s, call_id) == Some(k),
        k == s.len() ==> first_call(s, call_id) is None,
    decreases s.len(),
{
    if k > 0 {
        let t = s.skip(1);
        assert forall|j: int| 0 <= j < k - 1 implies (#[trigger] t[j]).call_id != call_id by {
            assert(t[j] == s[j + 1]);
        }
        lemma_first_call_at(t, call_id, k - 1);
        assert(s[0].call_id != call_id);
        if k < s.len() {
            assert(t[k - 1] == s[k]);
        }
    }
}

/// A response goes to the oldest call that waits for it: no older one waits
/// for the same name.
pub proof fn law_oldest_first(s: Seq<AwaitView>, name: Seq<char>)
    ensures
        match first_waiting(s, name) {
            Some(i) => 0 <= i < s.len() && waits_for(s[i], name) && forall|j: int|
                0 <= j < i ==> !waits_for(#[trigger] s[j], name),
            None => forall|j: int| 0 <= j < s.len() ==> !waits_for(#[trigger] s[j], name),
        },
    decreases s.len(),
{
    if s.len() > 0 && !waits_for(s[0], name) {
        let t = s.skip(1);
        law_oldest_first(t, name);
        assert forall|j: int| 0 < j < s.len() implies #[trigger] s[j] == t[j - 1] by {}
    }
}

/// Eviction parts the calls: each one is either kept or evicted.
pub proof fn law_eviction_parts(s: Seq<AwaitView>, now: u64)
    ensures
        expired(s, now).len() + unexpired(s, now).len() == s.len(),
        forall|i: int| 0 <= i < expired(s, now).len() ==> now >= (#[trigger] expired(
            s,
            now,
        )[i]).deadline,
        forall|i: int| 0 <= i < unexpired(s, now).len() ==> now < (#[trigger] unexpired(
            s,
            now,
        )[i]).deadline,
    decreases s.len(),
{
    if s.len() > 0 {
        law_eviction_parts(s.drop_last(), now);
    }
}

impl AwaitingResponse {
    /// No calls.
    pub fn new() -> (w: Self)
        ensures
            w@ == Seq::<AwaitView>::empty(),
    {
        let w = AwaitingResponse { entries: Vec::new() };
        proof {
            assert(w@ =~= Seq::<AwaitView>::empty());
        }
        w
    }

    /// How many calls wait.
    pub fn len(&self) -> (n: usize)
        ensures
            n == self@.len(),
    {
        self.entries.len()
    }

    /// Adds a call, unless too many wait already.
    pub fn push(&mut self, entry: AwaitEntry) -> (r: Result<(), TransportError>)
        ensures
            match r {
                Ok(_) => old(self)@.len() < AWAITING_CEILING && final(self)@ == old(self)@.push(
                    entry@,
                ),
                Err(e) => old(self)@.len() >= AWAITING_CEILING && final(self)@ == old(self)@ && e@
                    == TransportErrorView::Parse("AwaitingResponse defensive ceiling exceeded"@),
            },
    {
        if self.entries.len() >= AWAITING_CEILING {
            return Err(
                TransportError::Parse(copy_text("AwaitingResponse defensive ceiling exceeded")),
            );
        }
        let ghost e = entry@;
        self.entries.push(entry);
        proof {
            assert(self@ =~= old(self)@.push(e));
        }
        Ok(())
    }

    /// The oldest call that waits for a response of this name, without the
    /// abandoned ones.
    pub fn find_match(&self, name: &str) -> (r: Option<usize>)
        ensures
            match r {
                Some(i) => first_waiting(self@, name@) == Some(i as int) && i < self@.len(),
                None => first_waiting(self@, name@) is None,
            },
    {
        let mut i: usize = 0;
        while i < self.entries.len()
            invariant
                i <= self.entries@.len(),
                forall|j: int| 0 <= j < i ==> !waits_for(#[trigger] self@[j], name@),
            decreases self.entries@.len() - i,
        {
            proof {
                assert(self@[i as int] == self.entries@[i as int]@);
                lemma_first_waiting_at(self@, name@, i as int);
            }
            if !self.entries[i].abandoned && same_text(
                self.entries[i].expected_response_name.as_str(),
                name,
            ) {
                return Some(i);
            }
            i += 1;
        }
        proof {
            lemma_first_waiting_at(self@, name@, i as int);
        }
        None
    }

    /// Takes the call at a position out.
    pub fn remove(&mut self, idx: usize) -> (r: AwaitEntry)
        requires
            idx < old(self)@.len(),
        ensures
            r@ == old(self)@[idx as int],
            final(self)@ == old(self)@.remove(idx as int),
    {
        let r: AwaitEntry = self.entries.remove(idx);
        proof {
            assert(self@ =~= old(self)@.remove(idx as int));
        }
        r
    }

    /// Marks the oldest call with a number as abandoned.
    pub fn mark_abandoned(&mut self, call_id: u64)
        ensures
            final(self)@ == abandoned(old(self)@, call_id),
    {
        let mut i: usize = 0;
        while i < self.entries.len()
            invariant
                self@ == old(self)@,
                i <= self.entries@.len(),
                forall|j: int| 0 <= j < i ==> (#[trigger] self@[j]).call_id != call_id,
            decreases self.entries@.len() - i,
        {
            proof {
                assert(self@[i as int] == self.entries@[i as int]@);
                lemma_first_call_at(self@, call_id, i as int);
            }
            if self.entries[i].call_id == call_id {
                self.entries[i].abandoned = true;
                proof {
                    assert(self@ =~= abandoned(old(self)@, call_id));
                }
                return;
            }
            i += 1;
        }
        proof {
            lemma_first_call_at(self@, call_id, i as int);
        }
    }

    /// Takes the calls out whose deadline has come.
    pub fn evict_expired(&mut self, now: u64) -> (r: Vec<AwaitEntry>)
        ensures
            await_views(r@) == expired(old(self)@, now),
            final(self)@ == unexpired(old(self)@, now),
    {
        let ghost all = self@;
        let ghost mut k: int = 0;
        let mut evicted: Vec<AwaitEntry> = Vec::new();
        let mut idx: usize = 0;
        proof {
            assert(await_views(evicted@) =~= Seq::<AwaitView>::empty());
            assert(all.take(0) =~= Seq::<AwaitView>::empty());
            assert(self@ =~= unexpired(all.take(0), now) + all.skip(0));
        }
        while idx < self.entries.len()
            invariant
                0 <= k <= all.len(),
                idx == unexpired(all.take(k), now).len(),
                self@ == unexpired(all.take(k), now) + all.skip(k),
                await_views(evicted@) == expired(all.take(k), now),
            decreases all.len() - k,
        {
            let ghost kept = unexpired(all.take(k), now);
            proof {
                assert(self@.len() == self.entries@.len());
                assert(all.skip(k).len() == all.len() - k);
                assert(self@[idx as int] == self.entries@[idx as int]@);
                assert(self@[idx as int] == all[k]);
                assert(all.take(k + 1).drop_last() =~= all.take(k));
                assert(all.take(k + 1).last() == all[k]);
            }
            let ghost was = self@;
            if now >= self.entries[idx].deadline {
                let ghost before = await_views(evicted@);
                let e: AwaitEntry = self.entries.remove(idx);
                let ghost ev = e@;
                evicted.push(e);
                proof {
                    assert(await_views(evicted@) =~= before.push(ev));
                    assert(self@ =~= was.remove(idx as int));
                    assert(self@ =~= kept + all.skip(k + 1));
                }
            } else {
                proof {
                    assert(self@ =~= kept.push(all[k]) + all.skip(k + 1));
                }
                idx += 1;
            }
            proof {
                k = k + 1;
            }
        }
        proof {
            assert(self@.len() == self.entries@.len());
            assert(all.skip(k).len() == all.len() - k);
            assert(k == all.len());
            assert(all.take(k) =~= all);
            assert(self@ =~= unexpired(all, now));
        }
        evicted
    }

    /// Takes all calls out.
    pub fn drain_all(&mut self) -> (r: Vec<AwaitEntry>)
        ensures
            await_views(r@) == old(self)@,
            final(self)@ == Seq::<AwaitView>::empty(),
    {
        let mut out: Vec<AwaitEntry> = Vec::new();
        core::mem::swap(&mut out, &mut self.entries);
        proof {
            assert(self@ =~= Seq::<AwaitView>::empty());
        }
        out
    }

    /// The calls in order.
    pub fn iter(&self) -> (r: Vec<&AwaitEntry>)
        ensures
            r@.len() == self@.len(),
            forall|i: int| 0 <= i < r@.len() ==> (#[trigger] r@[i])@ == self@[i],
    {
        let mut out: Vec<&AwaitEntry> = Vec::new();
        let mut i: usize = 0;
        while i < self.entries.len()
            invariant
                i <= self.entries@.len(),
                i == out@.len(),
                forall|j: int| 0 <= j < i ==> (#[trigger] out@[j])@ == self@[j],
            decreases self.entries@.len() - i,
        {
            out.push(&self.entries[i]);
            i += 1;
        }
        out
    }
}

impl Default for AwaitingResponse {
    fn default() -> (w: Self)
        ensures
            w@ == Seq::<AwaitView>::empty(),
    {
        AwaitingResponse::new()
    }
}

/// A call that is abandoned is marked, and gets no response any more; every other
/// stays as it is. Abandoning a call that does not wait changes nothing.
pub proof fn law_abandoned_gets_nothing(
    s: Seq<AwaitView>,
    call_id: u64,
    name: Seq<char>,
    j: int,
)
    requires
        0 <= j < s.len(),
        forall|a: int, b: int| 0 <= a < b < s.len() ==> s[a].call_id != s[b].call_id,
    ensures
        abandoned(s, call_id).len() == s.len(),
        s[j].call_id == call_id ==> abandoned(s, call_id)[j] == (AwaitView {
            abandoned: true,
            ..s[j]
        }) && first_waiting(abandoned(s, call_id), name) != Some(j),
        s[j].call_id != call_id ==> abandoned(s, call_id)[j] == s[j],
{
    lemma_first_call_found(s, call_id);
    law_oldest_first(abandoned(s, call_id), name);
}

proof fn lemma_first_call_found(s: Seq<AwaitView>, call_id: u64)
    ensures
        match first_call(s, call_id) {
            Some(i) => 0 <= i < s.len() && s[i].call_id == call_id,
            None => forall|j: int| 0 <= j < s.len() ==> (#[trigger] s[j]).call_id != call_id,
        },
    decreases s.len(),
{
    if s.len() > 0 && s[0].call_id != call_id {
        let t = s.skip(1);
        lemma_first_call_found(t, call_id);
        assert forall|j: int| 0 < j < s.len() implies #[trigger] s[j] == t[j - 1] by {}
    }
}

} // verus!
