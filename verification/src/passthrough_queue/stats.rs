//! Statistics of one controller's queues.

use vstd::prelude::*;

verus! {

/// A snapshot of the statistics.
#[derive(Debug, Clone, Copy, PartialEq, Eq, Structural)]
pub struct PassthroughStats {
    pub bytes_write: u64,
    pub bytes_read: u64,
    pub bytes_retransmit: u64,
    pub bytes_invalid: u64,
    pub send_seq: u64,
    pub receive_seq: u64,
    pub retransmit_seq: u64,
    pub ready_bytes: u64,
    pub upcoming_bytes: u64,
    pub stalled_bytes: u64,
}

impl Default for PassthroughStats {
    fn default() -> (s: Self)
        ensures
            s == (PassthroughStats {
                bytes_write: 0,
                bytes_read: 0,
                bytes_retransmit: 0,
                bytes_invalid: 0,
                send_seq: 0,
                receive_seq: 0,
                retransmit_seq: 0,
                ready_bytes: 0,
                upcoming_bytes: 0,
                stalled_bytes: 0,
            }),
    {
        PassthroughStats {
            bytes_write: 0,
            bytes_read: 0,
            bytes_retransmit: 0,
            bytes_invalid: 0,
            send_seq: 0,
            receive_seq: 0,
            retransmit_seq: 0,
            ready_bytes: 0,
            upcoming_bytes: 0,
            stalled_bytes: 0,
        }
    }
}

/// The counters behind the statistics.
#[derive(Debug, Clone, Copy, PartialEq, Eq, Structural)]
pub struct StatsCounters {
    pub bytes_write: u64,
    pub bytes_read: u64,
    pub bytes_retransmit: u64,
    pub bytes_invalid: u64,
    pub send_seq: u64,
    pub receive_seq: u64,
    pub retransmit_seq: u64,
}

/// Counters at zero.
pub open spec fn zero_counters() -> StatsCounters {
    StatsCounters {
        bytes_write: 0,
        bytes_read: 0,
        bytes_retransmit: 0,
        bytes_invalid: 0,
        send_seq: 0,
        receive_seq: 0,
        retransmit_seq: 0,
    }
}

/// The counters as a snapshot, without the bytes that are queued.
pub open spec fn snapshot_of(c: StatsCounters) -> PassthroughStats {
    PassthroughStats {
        bytes_write: c.bytes_write,
        bytes_read: c.bytes_read,
        bytes_retransmit: c.bytes_retransmit,
        bytes_invalid: c.bytes_invalid,
        send_seq: c.send_seq,
        receive_seq: c.receive_seq,
        retransmit_seq: c.retransmit_seq,
        ready_bytes: 0,
        upcoming_bytes: 0,
        stalled_bytes: 0,
    }
}

impl StatsCounters {
    /// Counters at zero.
    pub fn new() -> (c: Self)
        ensures
            c == zero_counters(),
    {
        StatsCounters {
            bytes_write: 0,
            bytes_read: 0,
            bytes_retransmit: 0,
            bytes_invalid: 0,
            send_seq: 0,
            receive_seq: 0,
            retransmit_seq: 0,
        }
    }

    /// The counters as a snapshot, without the bytes that are queued.
    pub fn snapshot(&self) -> (s: PassthroughStats)
        ensures
            s == snapshot_of(*self),
    {
        PassthroughStats {
            bytes_write: self.bytes_write,
            bytes_read: self.bytes_read,
            bytes_retransmit: self.bytes_retransmit,
            bytes_invalid: self.bytes_invalid,
            send_seq: self.send_seq,
            receive_seq: self.receive_seq,
            retransmit_seq: self.retransmit_seq,
            ready_bytes: 0,
            upcoming_bytes: 0,
            stalled_bytes: 0,
        }
    }
}

impl Default for StatsCounters {
    fn default() -> (c: Self)
        ensures
            c == zero_counters(),
    {
        StatsCounters::new()
    }
}

/// A snapshot shows every counter under its own name, and nothing queued.
pub proof fn law_snapshot_shows_counters(c: StatsCounters)
    ensures
        ({
            let s = snapshot_of(c);
            &&& s.bytes_write == c.bytes_write && s.bytes_read == c.bytes_read
            &&& s.bytes_retransmit == c.bytes_retransmit && s.bytes_invalid == c.bytes_invalid
            &&& s.send_seq == c.send_seq && s.receive_seq == c.receive_seq
            &&& s.retransmit_seq == c.retransmit_seq
            &&& s.ready_bytes == 0 && s.upcoming_bytes == 0 && s.stalled_bytes == 0
        }),
{
}

} // verus!
