//! The receiving half of an established connection: the receive window,
//! reassembly of segments that arrive out of order, and the deadline for the
//! next acknowledgment.

use crate::fail::Fail;
use crate::operations::Poll;
use crate::protocols::tcp::out_of_order::{
    farthest_key, HALF_SPACE, is_farthest, lemma_some_key_is_farthest, OutOfOrder,
};
use crate::protocols::tcp::{seq_add, seq_advance, seq_ahead, seq_distance, seq_gap, SeqNumber};
use crate::runtime::{woken_after, BufferPool, WakeQueue};
use crate::sync::{Bytes, Waker};
use std::collections::VecDeque;
use vstd::prelude::*;

verus! {

/// How many segments may wait out of order.
pub const MAX_OUT_OF_ORDER: usize = 16;

/// How long an acknowledgment may wait for data to ride on, in nanoseconds.
pub const ACK_DELAY: u64 = 500_000_000;

/// Where the receiving direction stands. It only moves forwards.
#[derive(Clone, Copy, Debug, PartialEq, Eq, Structural)]
pub enum ReceiverState {
    Open,
    ReceivedFin,
    AckdFin,
}

/// How many bytes a queue of segments holds.
pub open spec fn queued_bytes(queue: Seq<Bytes>) -> nat
    decreases queue.len(),
{
    if queue.len() == 0 {
        0
    } else {
        queued_bytes(queue.drop_last()) + queue.last()@.len()
    }
}

/// The deadline `ACK_DELAY` after `now`, held at the end of the clock's range.
pub open spec fn ack_deadline_after(now: u64) -> u64 {
    if now + ACK_DELAY <= u64::MAX {
        (now + ACK_DELAY) as u64
    } else {
        u64::MAX
    }
}

/// The receiver as plain values.
pub struct ReceiverView {
    pub state: ReceiverState,
    /// The sequence number of the first byte that the application has not
    /// read.
    pub base_seq_no: u32,
    /// The sequence number that was last acknowledged to the peer.
    pub ack_seq_no: u32,
    /// The sequence number of the next byte that is expected in order.
    pub recv_seq_no: u32,
    /// The segments that arrived in order and wait to be read, oldest first.
    pub recv_queue: Seq<Bytes>,
    /// The segments that arrived ahead of their turn, by sequence number.
    pub out_of_order: Map<u32, Bytes>,
    /// When the pending acknowledgment must be sent at the latest.
    pub ack_deadline: Option<u64>,
    pub max_window_size: u32,
    pub window_scale: u8,
    /// The reader that waits for data.
    pub waker: Option<Waker>,
}

/// What the delivery of one segment did.
pub struct Delivery {
    /// The receiver afterwards.
    pub receiver: ReceiverView,
    pub result: Result<(), Fail>,
    /// The segment that was let go, for the pool to take back.
    pub dropped: Option<Bytes>,
    /// The reader that was woken.
    pub woken: Option<Waker>,
}

impl ReceiverView {
    /// How many bytes wait to be read.
    pub open spec fn unread(self) -> nat {
        queued_bytes(self.recv_queue)
    }

    /// The receiver's invariant: the bytes that wait to be read are the
    /// bytes between `base_seq_no` and `recv_seq_no`, they fit the window,
    /// and the out-of-order store keeps to its capacity.
    pub open spec fn wf(self) -> bool {
        &&& self.unread() <= self.max_window_size
        &&& seq_distance(self.base_seq_no, self.recv_seq_no) == self.unread()
        &&& self.out_of_order.dom().finite()
        &&& self.out_of_order.len() <= MAX_OUT_OF_ORDER
    }

    /// How many more bytes the peer may send.
    pub open spec fn window_size(self) -> int {
        self.max_window_size - seq_distance(self.base_seq_no, self.recv_seq_no)
    }

    /// Whether `buf` fits the window behind the bytes that wait to be read.
    pub open spec fn fits(self, buf: Bytes) -> bool {
        self.unread() + buf@.len() <= self.max_window_size
    }

    /// The receiver once `buf`, which starts at `recv_seq_no`, has joined the
    /// queue: the reader is woken and an acknowledgment falls due.
    pub open spec fn accept(self, buf: Bytes, now: u64) -> ReceiverView {
        ReceiverView {
            recv_seq_no: seq_add(self.recv_seq_no, buf@.len() as int),
            recv_queue: self.recv_queue.push(buf),
            waker: None,
            ack_deadline: if self.ack_deadline is None {
                Some(ack_deadline_after(now))
            } else {
                self.ack_deadline
            },
            ..self
        }
    }

    /// The receiver once every stored segment that has become due has
    /// joined the queue. A segment that has become due and does not fit the
    /// window is let go, and recovery ends there.
    pub open spec fn recover(self, now: u64) -> ReceiverView
        decreases self.out_of_order.len(),
    {
        if self.out_of_order.dom().finite() && self.out_of_order.contains_key(self.recv_seq_no) {
            let due = self.out_of_order[self.recv_seq_no];
            let rest = ReceiverView {
                out_of_order: self.out_of_order.remove(self.recv_seq_no),
                ..self
            };
            if rest.fits(due) {
                rest.accept(due, now).recover(now)
            } else {
                rest
            }
        } else {
            self
        }
    }

    /// The segment that recovery lets go, if it lets one go.
    pub open spec fn recovery_drop(self, now: u64) -> Option<Bytes>
        decreases self.out_of_order.len(),
    {
        if self.out_of_order.dom().finite() && self.out_of_order.contains_key(self.recv_seq_no) {
            let due = self.out_of_order[self.recv_seq_no];
            let rest = ReceiverView {
                out_of_order: self.out_of_order.remove(self.recv_seq_no),
                ..self
            };
            if rest.fits(due) {
                rest.accept(due, now).recovery_drop(now)
            } else {
                Some(due)
            }
        } else {
            None
        }
    }

    /// The receiver once `buf` was stored for later under `seq_no`. Where the
    /// store is full and `seq_no` is new to it, the segment with the highest
    /// sequence number leaves first: the one furthest ahead of `recv_seq_no`.
    pub open spec fn store_for_later(self, seq_no: u32, buf: Bytes) -> ReceiverView {
        let room = if !self.out_of_order.contains_key(seq_no) && self.out_of_order.len()
            >= MAX_OUT_OF_ORDER {
            self.out_of_order.remove(farthest_key(self.out_of_order, self.recv_seq_no))
        } else {
            self.out_of_order
        };
        ReceiverView { out_of_order: room.insert(seq_no, buf), ..self }
    }

    /// What the arrival of the segment `buf` with sequence number `seq_no`
    /// at time `now` does. Sequence numbers are compared round the sequence
    /// space: a segment ahead of `recv_seq_no` is future data, one behind it
    /// a duplicate.
    pub open spec fn receive_data(self, seq_no: u32, buf: Bytes, now: u64) -> Delivery {
        if self.state != ReceiverState::Open {
            Delivery {
                receiver: self,
                result: Err(Fail::ResourceNotFound { details: "Receiver closed" }),
                dropped: None,
                woken: None,
            }
        } else if seq_ahead(self.recv_seq_no, seq_no) > 0 {
            Delivery {
                receiver: self.store_for_later(seq_no, buf),
                result: Err(Fail::Ignored { details: "Out of order segment (reordered)" }),
                dropped: None,
                woken: None,
            }
        } else if seq_ahead(self.recv_seq_no, seq_no) < 0 {
            Delivery {
                receiver: self,
                result: Err(Fail::Ignored { details: "Out of order segment (duplicate)" }),
                dropped: Some(buf),
                woken: None,
            }
        } else if !self.fits(buf) {
            Delivery {
                receiver: self,
                result: Err(Fail::Ignored { details: "Full receive window" }),
                dropped: Some(buf),
                woken: None,
            }
        } else {
            Delivery {
                receiver: self.accept(buf, now).recover(now),
                result: Ok(()),
                dropped: self.accept(buf, now).recovery_drop(now),
                woken: self.waker,
            }
        }
    }

    /// The segment that `peek` shows and `recv` hands out. Nothing is at hand
    /// while `base_seq_no` has caught up with `recv_seq_no`.
    pub open spec fn front(self) -> Result<Option<Bytes>, Fail> {
        if self.base_seq_no == self.recv_seq_no {
            if self.state != ReceiverState::Open {
                Err(Fail::ResourceNotFound { details: "Receiver closed" })
            } else {
                Ok(None)
            }
        } else {
            Ok(Some(self.recv_queue[0]))
        }
    }

    /// The receiver once the application has read the segment at the front.
    pub open spec fn pop(self) -> ReceiverView {
        if self.base_seq_no == self.recv_seq_no {
            self
        } else {
            ReceiverView {
                base_seq_no: seq_add(self.base_seq_no, self.recv_queue[0]@.len() as int),
                recv_queue: self.recv_queue.skip(1),
                ..self
            }
        }
    }
}

/// A segment pushed onto a queue adds its length to the queue's bytes.
pub proof fn lemma_queued_bytes_push(queue: Seq<Bytes>, buf: Bytes)
    ensures
        queued_bytes(queue.push(buf)) == queued_bytes(queue) + buf@.len(),
{
    assert(queue.push(buf).drop_last() =~= queue);
}

/// The segment at the front of a queue takes its length with it.
pub proof fn lemma_queued_bytes_skip(queue: Seq<Bytes>)
    requires
        queue.len() > 0,
    ensures
        queued_bytes(queue.skip(1)) + queue[0]@.len() == queued_bytes(queue),
    decreases queue.len(),
{
    if queue.len() == 1 {
        assert(queue.skip(1) =~= Seq::<Bytes>::empty());
        assert(queue.drop_last() =~= Seq::<Bytes>::empty());
    } else {
        lemma_queued_bytes_skip(queue.drop_last());
        assert(queue.skip(1).drop_last() =~= queue.drop_last().skip(1));
    }
}

/// Moving the far end of a stretch of the sequence space on by `n` bytes
/// lengthens the stretch by `n`, as long as it stays shorter than the space.
pub proof fn lemma_distance_grows(from: u32, to: u32, n: int)
    requires
        0 <= n,
        seq_distance(from, to) + n < 0x1_0000_0000,
    ensures
        seq_distance(from, seq_add(to, n)) == seq_distance(from, to) + n,
{
}

/// Moving the near end of a stretch of the sequence space on by `n` bytes
/// shortens the stretch by `n`.
pub proof fn lemma_distance_shrinks(from: u32, to: u32, n: int)
    requires
        0 <= n <= seq_distance(from, to),
    ensures
        seq_distance(seq_add(from, n), to) == seq_distance(from, to) - n,
{
}

/// A sequence number less than half the space after another lies that far
/// ahead of it.
pub proof fn lemma_ahead_of_later(from: u32, n: int)
    requires
        0 <= n < HALF_SPACE,
    ensures
        seq_ahead(from, seq_add(from, n)) == n,
{
}

/// A sequence number lies neither ahead of another nor behind it where the
/// two are one, and only there.
pub proof fn lemma_in_turn(from: u32, to: u32)
    ensures
        seq_ahead(from, to) == 0 <==> from == to,
{
}

/// Going on by `n` bytes and then by `m` is going on by both at once.
pub proof fn lemma_add_twice(seq: u32, n: int, m: int)
    requires
        0 <= n,
        0 <= m,
    ensures
        seq_add(seq_add(seq, n), m) == seq_add(seq, n + m),
{
}

impl ReceiverView {
    /// A segment that fits the window leaves the invariant in place.
    pub proof fn lemma_accept_wf(self, buf: Bytes, now: u64)
        requires
            self.wf(),
            self.fits(buf),
        ensures
            self.accept(buf, now).wf(),
            self.accept(buf, now).unread() == self.unread() + buf@.len(),
    {
        lemma_queued_bytes_push(self.recv_queue, buf);
        lemma_distance_grows(self.base_seq_no, self.recv_seq_no, buf@.len() as int);
    }

    /// Recovery leaves the invariant in place.
    pub proof fn lemma_recover_wf(self, now: u64)
        requires
            self.wf(),
        ensures
            self.recover(now).wf(),
            self.recover(now).unread() >= self.unread(),
            self.recover(now).out_of_order.len() <= self.out_of_order.len(),
            self.recover(now).base_seq_no == self.base_seq_no,
            self.recover(now).ack_seq_no == self.ack_seq_no,
            self.recover(now).state == self.state,
            self.recover(now).max_window_size == self.max_window_size,
        decreases self.out_of_order.len(),
    {
        if self.out_of_order.contains_key(self.recv_seq_no) {
            let due = self.out_of_order[self.recv_seq_no];
            let rest = ReceiverView {
                out_of_order: self.out_of_order.remove(self.recv_seq_no),
                ..self
            };
            if rest.fits(due) {
                rest.lemma_accept_wf(due, now);
                rest.accept(due, now).lemma_recover_wf(now);
            }
        }
    }
}

/// The receiving half of an established connection.
pub struct Receiver {
    state: ReceiverState,
    base_seq_no: SeqNumber,
    recv_queue: VecDeque<Bytes>,
    ack_seq_no: SeqNumber,
    recv_seq_no: SeqNumber,
    ack_deadline: Option<u64>,
    max_window_size: u32,
    window_scale: u8,
    waker: Option<Waker>,
    out_of_order: OutOfOrder,
}

impl View for Receiver {
    type V = ReceiverView;

    closed spec fn view(&self) -> ReceiverView {
        ReceiverView {
            state: self.state,
            base_seq_no: self.base_seq_no,
            ack_seq_no: self.ack_seq_no,
            recv_seq_no: self.recv_seq_no,
            recv_queue: self.recv_queue@,
            out_of_order: self.out_of_order@,
            ack_deadline: self.ack_deadline,
            max_window_size: self.max_window_size,
            window_scale: self.window_scale,
            waker: self.waker,
        }
    }
}

impl Receiver {
    /// Whether the receiver keeps its invariant.
    pub open spec fn wf(&self) -> bool {
        self@.wf()
    }

    /// A receiver that expects the byte `seq_no` next and has nothing
    /// queued.
    pub fn new(seq_no: SeqNumber, max_window_size: u32, window_scale: u8) -> (r: Receiver)
        ensures
            r.wf(),
            r@ == (ReceiverView {
                state: ReceiverState::Open,
                base_seq_no: seq_no,
                ack_seq_no: seq_no,
                recv_seq_no: seq_no,
                recv_queue: Seq::empty(),
                out_of_order: Map::empty(),
                ack_deadline: None,
                max_window_size,
                window_scale,
                waker: None,
            }),
    {
        let r = Receiver {
            state: ReceiverState::Open,
            base_seq_no: seq_no,
            recv_queue: VecDeque::with_capacity(2048),
            ack_seq_no: seq_no,
            recv_seq_no: seq_no,
            ack_deadline: None,
            max_window_size,
            waker: None,
            out_of_order: OutOfOrder::new(),
            window_scale,
        };
        assert(r@.recv_queue =~= Seq::<Bytes>::empty());
        r
    }

    pub fn state(&self) -> (state: ReceiverState)
        ensures
            state == self@.state,
    {
        self.state
    }

    /// The sequence number of the next byte that is expected in order.
    pub fn recv_seq_no(&self) -> (seq_no: SeqNumber)
        ensures
            seq_no == self@.recv_seq_no,
    {
        self.recv_seq_no
    }

    /// When the pending acknowledgment must be sent at the latest.
    pub fn ack_deadline(&self) -> (deadline: Option<u64>)
        ensures
            deadline == self@.ack_deadline,
    {
        self.ack_deadline
    }

    /// Wakes the reader that waits for data, if one waits.
    pub fn wake_reader(&mut self, wakes: &mut WakeQueue)
        ensures
            final(self)@ == (ReceiverView { waker: None, ..old(self)@ }),
            final(wakes)@ == woken_after(old(wakes)@, old(self)@.waker),
    {
        wakes.wake_if(self.waker.take());
    }

    /// How many more bytes the peer may send.
    pub fn window_size(&self) -> (window: u32)
        requires
            self.wf(),
        ensures
            window == self@.window_size(),
            window == self@.max_window_size - self@.unread(),
    {
        let bytes_outstanding = seq_gap(self.base_seq_no, self.recv_seq_no);
        self.max_window_size - bytes_outstanding
    }

    /// The sequence number to acknowledge, where data has come in since the
    /// last acknowledgment.
    pub fn current_ack(&self) -> (ack: Option<SeqNumber>)
        ensures
            ack == (if seq_distance(self@.ack_seq_no, self@.recv_seq_no) != 0 {
                Some(self@.recv_seq_no)
            } else {
                None
            }),
    {
        let ack_seq_no = self.ack_seq_no;
        let recv_seq_no = self.recv_seq_no;
        if seq_gap(ack_seq_no, recv_seq_no) != 0 {
            Some(recv_seq_no)
        } else {
            None
        }
    }

    /// Notes that everything up to `seq_no` was acknowledged to the peer.
    pub fn ack_sent(&mut self, seq_no: SeqNumber)
        requires
            seq_no == old(self)@.recv_seq_no,
        ensures
            final(self)@ == (ReceiverView {
                ack_deadline: None,
                ack_seq_no: seq_no,
                ..old(self)@
            }),
    {
        self.ack_deadline = None;
        self.ack_seq_no = seq_no;
    }

    /// Shows the segment at the front of the queue without taking it.
    pub fn peek(&self) -> (segment: Result<Bytes, Fail>)
        requires
            self.wf(),
        ensures
            match self@.front() {
                Ok(Some(front)) => segment == Ok::<Bytes, Fail>(front),
                Ok(None) => segment == Err::<Bytes, Fail>(
                    Fail::ResourceExhausted { details: "No available data" },
                ),
                Err(e) => segment == Err::<Bytes, Fail>(e),
            },
    {
        if self.base_seq_no == self.recv_seq_no {
            if self.state != ReceiverState::Open {
                return Err(Fail::ResourceNotFound { details: "Receiver closed" });
            }
            return Err(Fail::ResourceExhausted { details: "No available data" });
        }
        let segment = self.recv_queue[0].clone();
        Ok(segment)
    }

    /// Hands out the segment at the front of the queue, if there is one.
    pub fn recv(&mut self) -> (segment: Result<Option<Bytes>, Fail>)
        requires
            old(self).wf(),
        ensures
            final(self).wf(),
            segment == old(self)@.front(),
            final(self)@ == old(self)@.pop(),
    {
        if self.base_seq_no == self.recv_seq_no {
            if self.state != ReceiverState::Open {
                return Err(Fail::ResourceNotFound { details: "Receiver closed" });
            }
            return Ok(None);
        }
        proof {
            lemma_queued_bytes_skip(self.recv_queue@);
        }
        let segment = self.recv_queue.pop_front().unwrap();
        proof {
            lemma_distance_shrinks(old(self).base_seq_no, self.recv_seq_no, segment@.len() as int);
            assert(self.recv_queue@ =~= old(self).recv_queue@.skip(1));
        }
        self.base_seq_no = seq_advance(self.base_seq_no, segment.len() as u32);
        Ok(Some(segment))
    }

    /// Hands out the segment at the front of the queue, or leaves `ctx` to
    /// be woken when one arrives.
    pub fn poll_recv(&mut self, ctx: &Waker) -> (polled: Poll<Result<Bytes, Fail>>)
        requires
            old(self).wf(),
        ensures
            final(self).wf(),
            match old(self)@.front() {
                Ok(Some(front)) => polled == Poll::Ready(Ok::<Bytes, Fail>(front)) && final(self)@
                    == old(self)@.pop(),
                Ok(None) => polled is Pending && final(self)@ == (ReceiverView {
                    waker: Some(*ctx),
                    ..old(self)@
                }),
                Err(e) => polled == Poll::Ready(Err::<Bytes, Fail>(e)) && final(self)@ == old(
                    self,
                )@,
            },
    {
        match self.recv() {
            Err(e) => Poll::Ready(Err(e)),
            Ok(Some(segment)) => Poll::Ready(Ok(segment)),
            Ok(None) => {
                self.waker = Some(*ctx);
                Poll::Pending
            },
        }
    }

    /// Notes that the peer has sent its FIN. A receiver that has seen one
    /// before stays as it is.
    pub fn receive_fin(&mut self)
        ensures
            final(self)@ == (ReceiverView {
                state: if old(self)@.state == ReceiverState::Open {
                    ReceiverState::ReceivedFin
                } else {
                    old(self)@.state
                },
                ..old(self)@
            }),
    {
        if self.state == ReceiverState::Open {
            self.state = ReceiverState::ReceivedFin;
        }
    }

    /// Notes that the peer's FIN was acknowledged.
    pub fn fin_acked(&mut self)
        ensures
            final(self)@ == (ReceiverView {
                state: if old(self)@.state == ReceiverState::ReceivedFin {
                    ReceiverState::AckdFin
                } else {
                    old(self)@.state
                },
                ..old(self)@
            }),
    {
        if self.state == ReceiverState::ReceivedFin {
            self.state = ReceiverState::AckdFin;
        }
    }

    /// Puts a segment that starts at `recv_seq_no` and fits the window at
    /// the end of the queue.
    fn accept(&mut self, buf: Bytes, now: u64, wakes: &mut WakeQueue)
        requires
            old(self).wf(),
            old(self)@.fits(buf),
        ensures
            final(self).wf(),
            final(self)@ == old(self)@.accept(buf, now),
            final(wakes)@ == woken_after(old(wakes)@, old(self)@.waker),
    {
        proof {
            self@.lemma_accept_wf(buf, now);
        }
        self.recv_seq_no = seq_advance(self.recv_seq_no, buf.len() as u32);
        self.recv_queue.push_back(buf);
        wakes.wake_if(self.waker.take());
        if self.ack_deadline.is_none() {
            self.ack_deadline = Some(now.saturating_add(ACK_DELAY));
        }
    }

    /// Takes in the segment `buf`, whose first byte has the sequence number
    /// `seq_no`, at time `now`. A segment that is let go is donated to
    /// `pool`; a reader that is woken is noted in `wakes`.
    pub fn receive_data(
        &mut self,
        seq_no: SeqNumber,
        buf: Bytes,
        now: u64,
        pool: &mut BufferPool,
        wakes: &mut WakeQueue,
    ) -> (result: Result<(), Fail>)
        requires
            old(self).wf(),
        ensures
            final(self).wf(),
            ({
                let delivery = old(self)@.receive_data(seq_no, buf, now);
                &&& final(self)@ == delivery.receiver
                &&& result == delivery.result
                &&& final(wakes)@ == woken_after(old(wakes)@, delivery.woken)
                &&& match delivery.dropped {
                    Some(segment) => old(pool)@.donated(segment, final(pool)@),
                    None => final(pool)@ == old(pool)@,
                }
            }),
    {
        if self.state != ReceiverState::Open {
            return Err(Fail::ResourceNotFound { details: "Receiver closed" });
        }
        let recv_seq_no = self.recv_seq_no;
        let ahead = seq_gap(recv_seq_no, seq_no);
        if ahead != 0 {
            if ahead < HALF_SPACE {
                if !self.out_of_order.contains_key(seq_no) {
                    if self.out_of_order.len() >= MAX_OUT_OF_ORDER {
                        let _ = self.out_of_order.evict_farthest(recv_seq_no);
                    }
                }
                let _ = self.out_of_order.insert(seq_no, buf);
                return Err(Fail::Ignored { details: "Out of order segment (reordered)" });
            } else {
                pool.donate_buffer(buf);
                return Err(Fail::Ignored { details: "Out of order segment (duplicate)" });
            }
        }
        let unread_bytes = seq_gap(self.base_seq_no, self.recv_seq_no);
        if buf.len() > (self.max_window_size - unread_bytes) as usize {
            pool.donate_buffer(buf);
            return Err(Fail::Ignored { details: "Full receive window" });
        }
        self.accept(buf, now, wakes);
        let ghost target = old(self)@.accept(buf, now);
        let ghost woken = wakes@;
        loop
            invariant_except_break
                self@.recover(now) == target.recover(now),
                self@.recovery_drop(now) == target.recovery_drop(now),
                pool@ == old(pool)@,
            invariant
                self.wf(),
                self@.waker is None,
                wakes@ == woken,
            ensures
                self@ == target.recover(now),
                match target.recovery_drop(now) {
                    Some(segment) => old(pool)@.donated(segment, pool@),
                    None => pool@ == old(pool)@,
                },
            decreases self@.out_of_order.len(),
        {
            let ghost before = self@;
            match self.out_of_order.remove(self.recv_seq_no) {
                None => {
                    assert(self@.out_of_order =~= before.out_of_order);
                    break ;
                },
                Some(due) => {
                    let unread_bytes = seq_gap(self.base_seq_no, self.recv_seq_no);
                    if due.len() > (self.max_window_size - unread_bytes) as usize {
                        pool.donate_buffer(due);
                        break ;
                    }
                    self.accept(due, now, wakes);
                },
            }
        }
        Ok(())
    }
}

impl ReceiverView {
    /// Every delivery leaves the invariant in place.
    pub proof fn lemma_receive_data_wf(self, seq_no: u32, buf: Bytes, now: u64)
        requires
            self.wf(),
        ensures
            self.receive_data(seq_no, buf, now).receiver.wf(),
    {
        if self.state == ReceiverState::Open {
            if seq_ahead(self.recv_seq_no, seq_no) > 0 {
                if !self.out_of_order.contains_key(seq_no) && self.out_of_order.len()
                    >= MAX_OUT_OF_ORDER {
                    lemma_some_key_is_farthest(self.out_of_order, self.recv_seq_no);
                }
            } else if seq_no == self.recv_seq_no && self.fits(buf) {
                self.lemma_accept_wf(buf, now);
                self.accept(buf, now).lemma_recover_wf(now);
            }
        }
    }

    /// Two segments that arrive in swapped order are queued in the order of
    /// the stream, wherever in the sequence space they lie: the later one
    /// waits in the store until the earlier one has come. The earlier one is
    /// shorter than half the sequence space; behind a longer one the later
    /// segment is no longer ahead.
    pub proof fn lemma_swapped_pair_is_reordered(
        self,
        first: Bytes,
        second: Bytes,
        now: u64,
        later: u64,
    )
        requires
            self.wf(),
            self.state == ReceiverState::Open,
            self.out_of_order.len() == 0,
            first@.len() > 0,
            first@.len() < HALF_SPACE,
            self.unread() + first@.len() + second@.len() <= self.max_window_size,
        ensures
            ({
                let early = self.receive_data(
                    seq_add(self.recv_seq_no, first@.len() as int),
                    second,
                    now,
                );
                let done = early.receiver.receive_data(self.recv_seq_no, first, later);
                &&& early.result == Err::<(), Fail>(
                    Fail::Ignored { details: "Out of order segment (reordered)" },
                )
                &&& early.receiver.recv_queue == self.recv_queue
                &&& done.result == Ok::<(), Fail>(())
                &&& done.receiver.recv_queue == self.recv_queue.push(first).push(second)
                &&& done.receiver.recv_seq_no == seq_add(
                    self.recv_seq_no,
                    (first@.len() + second@.len()) as int,
                )
                &&& done.receiver.out_of_order.len() == 0
                &&& done.receiver.base_seq_no == self.base_seq_no
                &&& done.receiver.ack_seq_no == self.ack_seq_no
                &&& done.dropped is None
            }),
    {
        let second_seq = seq_add(self.recv_seq_no, first@.len() as int);
        lemma_ahead_of_later(self.recv_seq_no, first@.len() as int);
        assert(self.out_of_order.dom() =~= Set::<u32>::empty());
        let waiting = self.store_for_later(second_seq, second);
        assert(waiting.out_of_order =~= Map::<u32, Bytes>::empty().insert(second_seq, second));
        assert(self.receive_data(second_seq, second, now).receiver == waiting);
        waiting.lemma_swapped_first_lets_second_follow(first, second, later);
    }

    /// Where the store holds nothing but `second`, due right after `first`,
    /// the arrival of `first` puts both at the end of the queue.
    proof fn lemma_swapped_first_lets_second_follow(self, first: Bytes, second: Bytes, later: u64)
        requires
            self.wf(),
            self.state == ReceiverState::Open,
            self.out_of_order == Map::<u32, Bytes>::empty().insert(
                seq_add(self.recv_seq_no, first@.len() as int),
                second,
            ),
            first@.len() > 0,
            self.unread() + first@.len() + second@.len() <= self.max_window_size,
        ensures
            ({
                let done = self.receive_data(self.recv_seq_no, first, later);
                &&& done.result == Ok::<(), Fail>(())
                &&& done.receiver.recv_queue == self.recv_queue.push(first).push(second)
                &&& done.receiver.recv_seq_no == seq_add(
                    self.recv_seq_no,
                    (first@.len() + second@.len()) as int,
                )
                &&& done.receiver.out_of_order.len() == 0
                &&& done.receiver.base_seq_no == self.base_seq_no
                &&& done.receiver.ack_seq_no == self.ack_seq_no
                &&& done.dropped is None
            }),
    {
        let second_seq = seq_add(self.recv_seq_no, first@.len() as int);
        assert(self.fits(first));
        self.lemma_accept_wf(first, later);
        let one = self.accept(first, later);
        assert(one.recv_seq_no == second_seq);
        assert(one.out_of_order.contains_key(second_seq));
        assert(one.out_of_order[second_seq] == second);
        let rest = ReceiverView { out_of_order: one.out_of_order.remove(second_seq), ..one };
        assert(rest.out_of_order =~= Map::<u32, Bytes>::empty());
        assert(rest.out_of_order.len() == 0);
        assert(rest.unread() == self.unread() + first@.len());
        assert(rest.fits(second));
        assert(rest.wf());
        rest.lemma_accept_wf(second, later);
        let two = rest.accept(second, later);
        assert(two.recv_queue == self.recv_queue.push(first).push(second));
        lemma_add_twice(self.recv_seq_no, first@.len() as int, second@.len() as int);
        assert(two.recv_seq_no == seq_add(
            self.recv_seq_no,
            (first@.len() + second@.len()) as int,
        ));
        assert(!two.out_of_order.contains_key(two.recv_seq_no));
        assert(two.recover(later) == two);
        assert(two.recovery_drop(later) is None);
        assert(one.recover(later) == two.recover(later));
        assert(one.recovery_drop(later) == two.recovery_drop(later));
    }

    /// Recovery adds to the end of the queue: what was queued before stays
    /// where it was.
    pub proof fn lemma_recover_keeps_queue(self, now: u64)
        ensures
            self.recover(now).recv_queue.len() >= self.recv_queue.len(),
            self.recover(now).recv_queue.take(self.recv_queue.len() as int) == self.recv_queue,
        decreases self.out_of_order.len(),
    {
        if self.out_of_order.dom().finite() && self.out_of_order.contains_key(self.recv_seq_no) {
            let due = self.out_of_order[self.recv_seq_no];
            let rest = ReceiverView {
                out_of_order: self.out_of_order.remove(self.recv_seq_no),
                ..self
            };
            if rest.fits(due) {
                let next = rest.accept(due, now);
                next.lemma_recover_keeps_queue(now);
                assert(next.recv_queue.take(self.recv_queue.len() as int) =~= self.recv_queue);
                assert(self.recover(now).recv_queue.take(self.recv_queue.len() as int)
                    =~= next.recover(now).recv_queue.take(next.recv_queue.len() as int).take(
                    self.recv_queue.len() as int,
                ));
            } else {
                assert(self.recv_queue.take(self.recv_queue.len() as int) =~= self.recv_queue);
            }
        } else {
            assert(self.recv_queue.take(self.recv_queue.len() as int) =~= self.recv_queue);
        }
    }

    /// A segment that arrives in its turn at a receiver with nothing to
    /// read is taken in, and it is what the reader gets next, whole and
    /// unchanged.
    pub proof fn lemma_delivered_segment_is_read(self, buf: Bytes, now: u64)
        requires
            self.wf(),
            self.state == ReceiverState::Open,
            self.recv_queue.len() == 0,
            0 < buf@.len() <= self.max_window_size,
        ensures
            ({
                let delivery = self.receive_data(self.recv_seq_no, buf, now);
                &&& delivery.result == Ok::<(), Fail>(())
                &&& delivery.receiver.wf()
                &&& delivery.receiver.front() == Ok::<Option<Bytes>, Fail>(Some(buf))
                &&& delivery.receiver.ack_seq_no == self.ack_seq_no
            }),
    {
        assert(self.unread() == 0);
        self.lemma_accept_wf(buf, now);
        let taken = self.accept(buf, now);
        taken.lemma_recover_wf(now);
        taken.lemma_recover_keeps_queue(now);
        let after = taken.recover(now);
        assert(taken.recv_queue[0] == buf);
        assert(after.recv_queue.take(1)[0] == after.recv_queue[0]);
        assert(after.unread() > 0);
    }

    /// A segment that is delivered a second time is ignored: it does not
    /// move `recv_seq_no` and adds nothing to the queue.
    pub proof fn lemma_duplicate_is_ignored(self, seq_no: u32, buf: Bytes, now: u64, later: u64)
        requires
            self.wf(),
            buf@.len() > 0,
            self.receive_data(seq_no, buf, now).result is Ok,
        ensures
            ({
                let once = self.receive_data(seq_no, buf, now).receiver;
                let twice = once.receive_data(seq_no, buf, later);
                &&& twice.result matches Err(Fail::Ignored { .. })
                &&& twice.receiver.recv_seq_no == once.recv_seq_no
                &&& twice.receiver.recv_queue == once.recv_queue
                &&& twice.receiver.base_seq_no == once.base_seq_no
            }),
    {
        lemma_in_turn(self.recv_seq_no, seq_no);
        assert(seq_no == self.recv_seq_no);
        assert(self.fits(buf));
        self.lemma_accept_wf(buf, now);
        let taken = self.accept(buf, now);
        taken.lemma_recover_wf(now);
        let once = taken.recover(now);
        assert(self.receive_data(seq_no, buf, now).receiver == once);
        assert(once.unread() > self.unread());
        assert(once.recv_seq_no != seq_no);
        lemma_in_turn(once.recv_seq_no, seq_no);
    }

    /// A segment that would take the unread bytes beyond the window is
    /// ignored and let go; the receiver stays as it is.
    pub proof fn lemma_window_overflow_is_ignored(self, buf: Bytes, now: u64)
        requires
            self.state == ReceiverState::Open,
            self.unread() + buf@.len() > self.max_window_size,
        ensures
            ({
                let delivery = self.receive_data(self.recv_seq_no, buf, now);
                &&& delivery.result == Err::<(), Fail>(
                    Fail::Ignored { details: "Full receive window" },
                )
                &&& delivery.receiver == self
                &&& delivery.dropped == Some(buf)
                &&& delivery.woken is None
            }),
    {
    }

    /// A new segment for a full store drives out the stored segment with
    /// the highest sequence number, the one furthest ahead of `recv_seq_no`,
    /// and no other: the store stays full.
    pub proof fn lemma_full_store_evicts_highest(self, seq_no: u32, buf: Bytes, now: u64)
        requires
            self.wf(),
            self.state == ReceiverState::Open,
            seq_ahead(self.recv_seq_no, seq_no) > 0,
            !self.out_of_order.contains_key(seq_no),
            self.out_of_order.len() == MAX_OUT_OF_ORDER,
        ensures
            ({
                let after = self.receive_data(seq_no, buf, now).receiver.out_of_order;
                let highest = farthest_key(self.out_of_order, self.recv_seq_no);
                &&& is_farthest(self.out_of_order, self.recv_seq_no, highest)
                &&& after.len() == MAX_OUT_OF_ORDER
                &&& !after.contains_key(highest)
                &&& after.contains_key(seq_no) && after[seq_no] == buf
                &&& forall|key: u32|
                    self.out_of_order.contains_key(key) && key != highest ==> after.contains_key(
                        key,
                    ) && after[key] == self.out_of_order[key]
            }),
    {
        lemma_some_key_is_farthest(self.out_of_order, self.recv_seq_no);
    }
}

} // verus!
