//! How much may be sent before the controller has acknowledged it.

use vstd::prelude::*;

verus! {

/// The bytes of the longest message.
pub const MESSAGE_MAX: u64 = 64;

/// How many blocks may be in flight, unless said otherwise.
pub const DEFAULT_MAX_PENDING_BLOCKS: u64 = 12;

/// How many bytes the controller can buffer, unless said otherwise.
pub const DEFAULT_RECEIVE_WINDOW: u64 = 192;

/// The blocks and bytes in flight. The counters run modulo 2^64.
#[derive(Debug)]
pub struct ReceiveWindow {
    send_seq: u64,
    receive_seq: u64,
    max_pending_blocks: u64,
    receive_window: u64,
    need_ack_bytes: u64,
    last_ack_bytes: u64,
    last_ack_seq: u64,
}

/// Model of [`ReceiveWindow`].
pub struct ReceiveWindowView {
    pub send_seq: u64,
    pub receive_seq: u64,
    pub max_pending_blocks: u64,
    pub receive_window: u64,
    pub need_ack_bytes: u64,
    pub last_ack_bytes: u64,
    pub last_ack_seq: u64,
}

impl View for ReceiveWindow {
    type V = ReceiveWindowView;

    closed spec fn view(&self) -> ReceiveWindowView {
        ReceiveWindowView {
            send_seq: self.send_seq,
            receive_seq: self.receive_seq,
            max_pending_blocks: self.max_pending_blocks,
            receive_window: self.receive_window,
            need_ack_bytes: self.need_ack_bytes,
            last_ack_bytes: self.last_ack_bytes,
            last_ack_seq: self.last_ack_seq,
        }
    }
}

/// A number cut to 64 bits.
pub open spec fn wrapped_u64(v: int) -> u64 {
    (v % 0x1_0000_0000_0000_0000) as u64
}

/// Nothing in flight, with given limits.
pub open spec fn fresh_window(max_pending_blocks: u64, receive_window: u64) -> ReceiveWindowView {
    ReceiveWindowView {
        send_seq: 1,
        receive_seq: 1,
        max_pending_blocks,
        receive_window,
        need_ack_bytes: 0,
        last_ack_bytes: 0,
        last_ack_seq: 0,
    }
}

/// Whether one more block may be sent: fewer blocks are in flight than
/// allowed, and the longest message still fits, together with the bytes that
/// were in flight before the last block while its acknowledgement lags.
pub open spec fn window_open(w: ReceiveWindowView) -> bool {
    let carry: int = if w.last_ack_seq < w.receive_seq {
        w.last_ack_bytes as int
    } else {
        0
    };
    &&& wrapped_u64(w.send_seq - w.receive_seq) < w.max_pending_blocks
    &&& wrapped_u64(w.need_ack_bytes + 64 + carry) <= w.receive_window
}

/// The window after a block was sent.
pub open spec fn window_emitted(w: ReceiveWindowView, bytes_len: u64) -> ReceiveWindowView {
    ReceiveWindowView {
        last_ack_bytes: w.need_ack_bytes,
        last_ack_seq: wrapped_u64(w.send_seq - 1),
        need_ack_bytes: wrapped_u64(w.need_ack_bytes + bytes_len),
        send_seq: wrapped_u64(w.send_seq + 1),
        ..w
    }
}

/// The window after a block was acknowledged.
pub open spec fn window_acked(w: ReceiveWindowView, acked_bytes: u64) -> ReceiveWindowView {
    ReceiveWindowView {
        need_ack_bytes: if w.need_ack_bytes >= acked_bytes {
            (w.need_ack_bytes - acked_bytes) as u64
        } else {
            0
        },
        receive_seq: wrapped_u64(w.receive_seq + 1),
        ..w
    }
}

impl ReceiveWindow {
    /// Nothing in flight, with the default limits.
    pub fn new() -> (w: Self)
        ensures
            w@ == fresh_window(DEFAULT_MAX_PENDING_BLOCKS, DEFAULT_RECEIVE_WINDOW),
    {
        ReceiveWindow::with_limits(DEFAULT_MAX_PENDING_BLOCKS, DEFAULT_RECEIVE_WINDOW)
    }

    /// Nothing in flight, with given limits.
    pub fn with_limits(max_pending_blocks: u64, receive_window: u64) -> (w: Self)
        ensures
            w@ == fresh_window(max_pending_blocks, receive_window),
    {
        ReceiveWindow {
            send_seq: 1,
            receive_seq: 1,
            max_pending_blocks,
            receive_window,
            need_ack_bytes: 0,
            last_ack_bytes: 0,
            last_ack_seq: 0,
        }
    }

    /// Whether one more block may be sent.
    pub fn can_emit(&self) -> (r: bool)
        ensures
            r == window_open(self@),
    {
        if self.send_seq.wrapping_sub(self.receive_seq) >= self.max_pending_blocks {
            return false;
        }
        let carry: u64 = if self.last_ack_seq < self.receive_seq {
            self.last_ack_bytes
        } else {
            0
        };
        self.need_ack_bytes.wrapping_add(MESSAGE_MAX).wrapping_add(carry) <= self.receive_window
    }

    /// Counts a block that was sent.
    pub fn record_emit(&mut self, bytes_len: u64)
        ensures
            final(self)@ == window_emitted(old(self)@, bytes_len),
    {
        self.last_ack_bytes = self.need_ack_bytes;
        self.last_ack_seq = self.send_seq.wrapping_sub(1);
        self.need_ack_bytes = self.need_ack_bytes.wrapping_add(bytes_len);
        self.send_seq = self.send_seq.wrapping_add(1);
    }

    /// Counts a block that was acknowledged.
    pub fn record_ack(&mut self, acked_bytes: u64)
        ensures
            final(self)@ == window_acked(old(self)@, acked_bytes),
    {
        self.need_ack_bytes = self.need_ack_bytes.saturating_sub(acked_bytes);
        self.receive_seq = self.receive_seq.wrapping_add(1);
    }

    /// The sequence of the next block.
    pub fn send_seq(&self) -> (r: u64)
        ensures
            r == self@.send_seq,
    {
        self.send_seq
    }

    /// The sequence of the next acknowledgement.
    pub fn receive_seq(&self) -> (r: u64)
        ensures
            r == self@.receive_seq,
    {
        self.receive_seq
    }
}

impl Default for ReceiveWindow {
    fn default() -> (w: Self)
        ensures
            w@ == fresh_window(DEFAULT_MAX_PENDING_BLOCKS, DEFAULT_RECEIVE_WINDOW),
    {
        ReceiveWindow::new()
    }
}

/// Sending a block and having it acknowledged leaves the bytes and the blocks
/// in flight as they were.
pub proof fn law_ack_undoes_emit(w: ReceiveWindowView, bytes_len: u64)
    requires
        w.need_ack_bytes + bytes_len <= u64::MAX,
    ensures
        ({
            let after = window_acked(window_emitted(w, bytes_len), bytes_len);
            &&& after.need_ack_bytes == w.need_ack_bytes
            &&& wrapped_u64(after.send_seq - after.receive_seq) == wrapped_u64(
                w.send_seq - w.receive_seq,
            )
        }),
{
}

/// What is reported to a window.
pub enum WindowEvent {
    /// A block of so many bytes was sent.
    Sent(u64),
    /// A block of so many bytes was acknowledged.
    Acked(u64),
}

/// The window after some events.
pub open spec fn window_run(w: ReceiveWindowView, es: Seq<WindowEvent>) -> ReceiveWindowView
    decreases es.len(),
{
    if es.len() == 0 {
        w
    } else {
        match es.last() {
            WindowEvent::Sent(n) => window_emitted(window_run(w, es.drop_last()), n),
            WindowEvent::Acked(n) => window_acked(window_run(w, es.drop_last()), n),
        }
    }
}

/// Whether each block of a run was sent only where one more was allowed, and
/// was no longer than a message can be.
pub open spec fn heeded(w: ReceiveWindowView, es: Seq<WindowEvent>) -> bool {
    forall|i: int|
        0 <= i < es.len() ==> (#[trigger] es[i] matches WindowEvent::Sent(n) ==> n <= 64
            && window_open(window_run(w, es.take(i))))
}

/// The bytes that some events leave unacknowledged: those sent, less those
/// acknowledged, but never less than none.
pub open spec fn bytes_in_flight(es: Seq<WindowEvent>) -> int
    decreases es.len(),
{
    if es.len() == 0 {
        0
    } else {
        let before = bytes_in_flight(es.drop_last());
        match es.last() {
            WindowEvent::Sent(n) => before + n,
            WindowEvent::Acked(n) => if before >= n {
                before - n
            } else {
                0
            },
        }
    }
}

/// The controller's buffer never overflows: from a fresh window on, over any
/// run of blocks that were each allowed and of acknowledgements, no more bytes
/// are in flight than the controller can buffer.
pub proof fn law_buffer_never_overflows(blocks: u64, buffer: u64, es: Seq<WindowEvent>)
    requires
        buffer <= 0x7000_0000_0000_0000,
        heeded(fresh_window(blocks, buffer), es),
    ensures
        bytes_in_flight(es) <= buffer,
        window_run(fresh_window(blocks, buffer), es).need_ack_bytes == bytes_in_flight(es),
    decreases es.len(),
{
    lemma_buffer_run(blocks, buffer, es);
}

proof fn lemma_buffer_run(blocks: u64, buffer: u64, es: Seq<WindowEvent>)
    requires
        buffer <= 0x7000_0000_0000_0000,
        heeded(fresh_window(blocks, buffer), es),
    ensures
        ({
            let w = window_run(fresh_window(blocks, buffer), es);
            &&& w.receive_window == buffer
            &&& w.max_pending_blocks == blocks
            &&& w.need_ack_bytes == bytes_in_flight(es)
            &&& 0 <= bytes_in_flight(es) <= buffer
            &&& w.last_ack_bytes <= buffer
        }),
    decreases es.len(),
{
    if es.len() > 0 {
        let w = fresh_window(blocks, buffer);
        let before = es.drop_last();
        assert(es[es.len() - 1] == es.last());
        assert(es.take(es.len() - 1) =~= before);
        assert forall|i: int| 0 <= i < before.len() implies (#[trigger] before[i] matches
            WindowEvent::Sent(n) ==> n <= 64 && window_open(window_run(w, before.take(i)))) by {
            assert(es[i] == before[i]);
            assert(before.take(i) =~= es.take(i));
        }
        lemma_buffer_run(blocks, buffer, before);
    }
}

/// How many blocks some events leave unacknowledged.
pub open spec fn blocks_in_flight(es: Seq<WindowEvent>) -> int
    decreases es.len(),
{
    if es.len() == 0 {
        0
    } else {
        blocks_in_flight(es.drop_last()) + match es.last() {
            WindowEvent::Sent(_) => 1int,
            WindowEvent::Acked(_) => -1int,
        }
    }
}

/// Whether no block of a run is acknowledged before it was sent.
pub open spec fn answered_only(es: Seq<WindowEvent>) -> bool {
    forall|i: int| 0 <= i <= es.len() ==> #[trigger] blocks_in_flight(es.take(i)) >= 0
}

/// No more blocks are ever in flight than allowed.
pub proof fn law_blocks_stay_limited(blocks: u64, buffer: u64, es: Seq<WindowEvent>)
    requires
        es.len() < u64::MAX,
        answered_only(es),
        heeded(fresh_window(blocks, buffer), es),
    ensures
        blocks_in_flight(es) <= blocks,
        ({
            let w = window_run(fresh_window(blocks, buffer), es);
            &&& wrapped_u64(w.send_seq - w.receive_seq) == blocks_in_flight(es)
            &&& w.max_pending_blocks == blocks
        }),
    decreases es.len(),
{
    assert(es.take(es.len() as int) =~= es);
    lemma_blocks_bound(es);
    if es.len() > 0 {
        let w = fresh_window(blocks, buffer);
        let before = es.drop_last();
        assert(es[es.len() - 1] == es.last());
        assert(es.take(es.len() - 1) =~= before);
        assert forall|i: int| 0 <= i < before.len() implies (#[trigger] before[i] matches
            WindowEvent::Sent(n) ==> n <= 64 && window_open(window_run(w, before.take(i)))) by {
            assert(es[i] == before[i]);
            assert(before.take(i) =~= es.take(i));
        }
        assert forall|i: int| 0 <= i <= before.len() implies #[trigger] blocks_in_flight(
            before.take(i),
        ) >= 0 by {
            assert(before.take(i) =~= es.take(i));
        }
        law_blocks_stay_limited(blocks, buffer, before);
        let u = window_run(w, before);
        lemma_blocks_bound(before);
        lemma_gap(u.send_seq, u.receive_seq);
    }
}

/// One block more, or one less, between two sequences.
proof fn lemma_gap(send: u64, receive: u64)
    ensures
        wrapped_u64(send - receive) < u64::MAX ==> wrapped_u64(wrapped_u64(send + 1) - receive)
            == wrapped_u64(send - receive) + 1,
        wrapped_u64(send - receive) > 0 ==> wrapped_u64(send - wrapped_u64(receive + 1))
            == wrapped_u64(send - receive) - 1,
{
}

proof fn lemma_blocks_bound(es: Seq<WindowEvent>)
    ensures
        blocks_in_flight(es) <= es.len(),
    decreases es.len(),
{
    if es.len() > 0 {
        lemma_blocks_bound(es.drop_last());
    }
}

/// A block is not held back without need: where fewer blocks are in flight
/// than allowed, and the longest message would fit behind the bytes in flight
/// even if the last block's were counted twice, one more may be sent.
pub proof fn law_room_is_used(w: ReceiveWindowView)
    requires
        w.receive_seq <= w.send_seq < w.receive_seq + w.max_pending_blocks,
        w.need_ack_bytes + w.last_ack_bytes + 64 <= w.receive_window,
    ensures
        window_open(w),
{
}

} // verus!
