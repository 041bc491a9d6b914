//! One queued message.

use vstd::prelude::*;

verus! {

/// The priority of entries that are only emitted when nothing else is ready.
pub const BACKGROUND_PRIORITY_CLOCK: u64 = 0xFFFF_FFFF_FFFF_FFFF;

/// Ties a sent message to its response. Zero asks for no response.
#[derive(Debug, Clone, Copy, PartialEq, Eq, Hash, Structural)]
pub struct NotifyId(pub u64);

impl NotifyId {
    /// Asks for no response.
    pub fn none() -> (r: Self)
        ensures
            r == NotifyId(0),
    {
        NotifyId(0)
    }

    /// The identifier with a given number.
    pub fn new(id: u64) -> (r: Self)
        ensures
            r == NotifyId(id),
    {
        NotifyId(id)
    }

    /// Whether no response is asked for.
    pub fn is_none(&self) -> (r: bool)
        ensures
            r == (self.0 == 0),
    {
        self.0 == 0
    }

    /// The number.
    pub fn raw(&self) -> (r: u64)
        ensures
            r == self.0,
    {
        self.0
    }
}

/// A message queued for transmission. It may go once the clock has reached
/// `min_clock`; among those that may go, the lowest `req_clock` goes first.
#[derive(Debug)]
pub struct PassthroughEntry {
    bytes: Vec<u8>,
    min_clock: u64,
    req_clock: u64,
    notify_id: NotifyId,
}

/// Model of [`PassthroughEntry`].
#[verifier::ext_equal]
pub struct EntryView {
    pub bytes: Seq<u8>,
    pub min_clock: u64,
    pub req_clock: u64,
    pub notify_id: NotifyId,
}

impl View for PassthroughEntry {
    type V = EntryView;

    closed spec fn view(&self) -> EntryView {
        EntryView {
            bytes: self.bytes@,
            min_clock: self.min_clock,
            req_clock: self.req_clock,
            notify_id: self.notify_id,
        }
    }
}

impl PassthroughEntry {
    /// An entry with the given bytes, clocks and identifier.
    pub fn new(bytes: Vec<u8>, min_clock: u64, req_clock: u64, notify_id: NotifyId) -> (r: Self)
        ensures
            r@ == (EntryView { bytes: bytes@, min_clock, req_clock, notify_id }),
    {
        PassthroughEntry { bytes, min_clock, req_clock, notify_id }
    }

    /// The bytes to send.
    pub fn bytes(&self) -> (r: &[u8])
        ensures
            r@ == self@.bytes,
    {
        self.bytes.as_slice()
    }

    /// The clock from which on the entry may go.
    pub fn min_clock(&self) -> (r: u64)
        ensures
            r == self@.min_clock,
    {
        self.min_clock
    }

    /// The clock that orders the entries that may go.
    pub fn req_clock(&self) -> (r: u64)
        ensures
            r == self@.req_clock,
    {
        self.req_clock
    }

    /// The identifier of the response.
    pub fn notify_id(&self) -> (r: NotifyId)
        ensures
            r == self@.notify_id,
    {
        self.notify_id
    }

    /// Whether the entry only goes when nothing else is ready.
    pub fn is_background_priority(&self) -> (r: bool)
        ensures
            r == (self@.req_clock == BACKGROUND_PRIORITY_CLOCK),
    {
        self.req_clock == BACKGROUND_PRIORITY_CLOCK
    }
}

} // verus!
