//! Pending responses.

use crate::passthrough_queue::entry::NotifyId;
use std::collections::HashSet;
use vstd::prelude::*;

verus! {

broadcast use vstd::std_specs::hash::group_hash_axioms;

/// A response: the body of the message, and when the request was sent and the
/// response received, in nanoseconds.
#[derive(Debug)]
pub struct NotifyResponse {
    pub bytes: Vec<u8>,
    pub sent_time: u64,
    pub receive_time: u64,
}

/// Model of [`NotifyResponse`].
#[verifier::ext_equal]
pub struct NotifyResponseView {
    pub bytes: Seq<u8>,
    pub sent_time: u64,
    pub receive_time: u64,
}

impl View for NotifyResponse {
    type V = NotifyResponseView;

    open spec fn view(&self) -> NotifyResponseView {
        NotifyResponseView {
            bytes: self.bytes@,
            sent_time: self.sent_time,
            receive_time: self.receive_time,
        }
    }
}

/// The identifiers whose response is still to come. Whoever registers one
/// keeps the callback that belongs to it.
#[derive(Debug)]
pub struct NotifyTable {
    pending: HashSet<u64>,
    next_id: u64,
}

/// Model of [`NotifyTable`].
#[verifier::ext_equal]
pub struct NotifyTableView {
    pub pending: Set<u64>,
    pub next_id: u64,
}

impl View for NotifyTable {
    type V = NotifyTableView;

    closed spec fn view(&self) -> NotifyTableView {
        NotifyTableView { pending: self.pending@, next_id: self.next_id }
    }
}

/// A table with nothing pending. Identifiers start at one.
pub open spec fn no_notify() -> NotifyTableView {
    NotifyTableView { pending: Set::empty(), next_id: 1 }
}

/// The table with one identifier more.
pub open spec fn notify_registered(t: NotifyTableView) -> NotifyTableView {
    NotifyTableView {
        pending: t.pending.insert(t.next_id),
        next_id: ((t.next_id + 1) % 0x1_0000_0000_0000_0000) as u64,
    }
}

impl NotifyTable {
    /// Nothing pending.
    pub fn new() -> (t: Self)
        ensures
            t@ == no_notify(),
    {
        NotifyTable { pending: HashSet::new(), next_id: 1 }
    }

    /// A new identifier, whose response is now pending.
    pub fn register(&mut self) -> (id: NotifyId)
        ensures
            id == NotifyId(old(self)@.next_id),
            final(self)@ == notify_registered(old(self)@),
    {
        let id: u64 = self.next_id;
        self.next_id = self.next_id.wrapping_add(1);
        self.pending.insert(id);
        NotifyId(id)
    }

    /// Gives the response back if it is pending, once: it is to be handed to
    /// the callback of its identifier.
    pub fn dispatch(&mut self, id: NotifyId, response: NotifyResponse) -> (r: Option<
        NotifyResponse,
    >)
        ensures
            r == (if old(self)@.pending.contains(id.0) {
                Some(response)
            } else {
                None
            }),
            final(self)@ == (NotifyTableView {
                pending: old(self)@.pending.remove(id.0),
                ..old(self)@
            }),
    {
        if self.pending.remove(&id.0) {
            Some(response)
        } else {
            proof {
                assert(old(self)@.pending.remove(id.0) =~= old(self)@.pending);
            }
            None
        }
    }

    /// How many responses are still to come.
    pub fn pending_count(&self) -> (n: usize)
        ensures
            n == self@.pending.len(),
    {
        self.pending.len()
    }
}

impl Default for NotifyTable {
    fn default() -> (t: Self)
        ensures
            t@ == no_notify(),
    {
        NotifyTable::new()
    }
}

} // verus!
