//! The last messages that were sent and received, for diagnostics.

use std::collections::VecDeque;
use vstd::prelude::*;

verus! {

/// How many sent messages are kept.
pub const DEBUG_QUEUE_SENT: usize = 100;

/// How many received messages are kept.
pub const DEBUG_QUEUE_RECEIVE: usize = 100;

/// One message, with its time in nanoseconds.
#[derive(Debug)]
pub struct DebugEntry {
    pub seq: u64,
    pub bytes: Vec<u8>,
    pub timestamp: u64,
}

/// Model of [`DebugEntry`].
#[verifier::ext_equal]
pub struct DebugEntryView {
    pub seq: u64,
    pub bytes: Seq<u8>,
    pub timestamp: u64,
}

impl View for DebugEntry {
    type V = DebugEntryView;

    open spec fn view(&self) -> DebugEntryView {
        DebugEntryView { seq: self.seq, bytes: self.bytes@, timestamp: self.timestamp }
    }
}

/// Messages, as models.
pub open spec fn debug_views(v: Seq<DebugEntry>) -> Seq<DebugEntryView> {
    Seq::new(v.len(), |i: int| v[i]@)
}

/// The last messages in both directions.
#[derive(Debug)]
pub struct DebugLog {
    sent: VecDeque<DebugEntry>,
    received: VecDeque<DebugEntry>,
}

/// Model of [`DebugLog`].
#[verifier::ext_equal]
pub struct DebugLogView {
    pub sent: Seq<DebugEntryView>,
    pub received: Seq<DebugEntryView>,
}

impl View for DebugLog {
    type V = DebugLogView;

    closed spec fn view(&self) -> DebugLogView {
        DebugLogView { sent: debug_views(self.sent@), received: debug_views(self.received@) }
    }
}

/// No messages.
pub open spec fn no_log() -> DebugLogView {
    DebugLogView { sent: Seq::empty(), received: Seq::empty() }
}

/// A ring with one message more; a full ring loses its oldest.
pub open spec fn logged(s: Seq<DebugEntryView>, e: DebugEntryView) -> Seq<DebugEntryView> {
    if s.len() >= 100 {
        s.skip(1).push(e)
    } else {
        s.push(e)
    }
}

/// Adds a message to a ring.
fn push_ring(ring: &mut VecDeque<DebugEntry>, limit: usize, e: DebugEntry)
    requires
        limit == 100,
    ensures
        debug_views(final(ring)@) == logged(debug_views(old(ring)@), e@),
{
    let ghost was = debug_views(ring@);
    let ghost ev = e@;
    if ring.len() >= limit {
        ring.pop_front();
        proof {
            assert(debug_views(ring@) =~= was.skip(1));
        }
    }
    let ghost mid = debug_views(ring@);
    ring.push_back(e);
    proof {
        assert(debug_views(ring@) =~= mid.push(ev));
    }
}

/// Empties a ring.
fn drain_ring(ring: &mut VecDeque<DebugEntry>) -> (r: Vec<DebugEntry>)
    ensures
        debug_views(r@) == debug_views(old(ring)@),
        debug_views(final(ring)@) == Seq::<DebugEntryView>::empty(),
{
    let mut out: Vec<DebugEntry> = Vec::new();
    let ghost all = ring@;
    while ring.len() > 0
        invariant
            out@ + ring@ == all,
        decreases ring@.len(),
    {
        match ring.pop_front() {
            Some(e) => {
                out.push(e);
                proof {
                    assert(out@ + ring@ =~= all);
                }
            },
            None => {},
        }
    }
    proof {
        assert(out@ =~= all);
        assert(debug_views(ring@) =~= Seq::<DebugEntryView>::empty());
    }
    out
}

impl DebugLog {
    /// No messages.
    pub fn new() -> (l: Self)
        ensures
            l@ == no_log(),
    {
        let l = DebugLog { sent: VecDeque::new(), received: VecDeque::new() };
        proof {
            assert(l@ =~= no_log());
        }
        l
    }

    /// Adds a sent message.
    pub fn record_sent(&mut self, seq: u64, bytes: Vec<u8>, timestamp: u64)
        ensures
            final(self)@ == (DebugLogView {
                sent: logged(
                    old(self)@.sent,
                    DebugEntryView { seq, bytes: bytes@, timestamp },
                ),
                ..old(self)@
            }),
    {
        push_ring(&mut self.sent, DEBUG_QUEUE_SENT, DebugEntry { seq, bytes, timestamp });
    }

    /// Adds a received message.
    pub fn record_received(&mut self, seq: u64, bytes: Vec<u8>, timestamp: u64)
        ensures
            final(self)@ == (DebugLogView {
                received: logged(
                    old(self)@.received,
                    DebugEntryView { seq, bytes: bytes@, timestamp },
                ),
                ..old(self)@
            }),
    {
        push_ring(&mut self.received, DEBUG_QUEUE_RECEIVE, DebugEntry { seq, bytes, timestamp });
    }

    /// Takes all messages out: the sent ones and the received ones.
    pub fn extract_old(&mut self) -> (r: (Vec<DebugEntry>, Vec<DebugEntry>))
        ensures
            debug_views(r.0@) == old(self)@.sent,
            debug_views(r.1@) == old(self)@.received,
            final(self)@ == no_log(),
    {
        let sent: Vec<DebugEntry> = drain_ring(&mut self.sent);
        let received: Vec<DebugEntry> = drain_ring(&mut self.received);
        (sent, received)
    }

    /// How many sent messages are kept.
    pub fn sent_count(&self) -> (n: usize)
        ensures
            n == self@.sent.len(),
    {
        self.sent.len()
    }

    /// How many received messages are kept.
    pub fn received_count(&self) -> (n: usize)
        ensures
            n == self@.received.len(),
    {
        self.received.len()
    }
}

impl Default for DebugLog {
    fn default() -> (l: Self)
        ensures
            l@ == no_log(),
    {
        DebugLog::new()
    }
}

/// Neither ring ever holds more than its limit.
pub proof fn law_log_bounded(s: Seq<DebugEntryView>, e: DebugEntryView)
    requires
        s.len() <= 100,
    ensures
        logged(s, e).len() <= 100,
        logged(s, e).last() == e,
{
}

/// A ring after messages were added one by one.
pub open spec fn logged_all(s: Seq<DebugEntryView>, es: Seq<DebugEntryView>) -> Seq<DebugEntryView>
    decreases es.len(),
{
    if es.len() == 0 {
        s
    } else {
        logged(logged_all(s, es.drop_last()), es.last())
    }
}

/// A ring holds the last hundred of the messages that were added, in order, and
/// all of them while there are fewer.
pub proof fn law_last_hundred_are_kept(es: Seq<DebugEntryView>)
    ensures
        es.len() <= 100 ==> logged_all(Seq::empty(), es) == es,
        es.len() > 100 ==> logged_all(Seq::empty(), es) == es.skip(es.len() - 100),
    decreases es.len(),
{
    if es.len() > 0 {
        let d = es.drop_last();
        law_last_hundred_are_kept(d);
        assert(d.push(es.last()) =~= es);
        if es.len() == 101 {
            assert(d.skip(1).push(es.last()) =~= es.skip(1));
        }
        if es.len() > 101 {
            assert(d.skip(d.len() - 100).skip(1).push(es.last()) =~= es.skip(es.len() - 100));
        }
    } else {
        assert(es =~= Seq::empty());
    }
}

} // verus!
