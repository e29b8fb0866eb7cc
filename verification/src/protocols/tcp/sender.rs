//! The sending half of an established connection: the segments that wait
//! for their acknowledgment, the window that the peer offers, and the
//! deadline for the next retransmission.

use crate::fail::Fail;
use crate::protocols::tcp::receiver::{
    lemma_distance_grows,
    lemma_distance_shrinks,
    lemma_queued_bytes_push,
    lemma_queued_bytes_skip,
    queued_bytes,
};
use crate::protocols::tcp::{seq_add, seq_advance, seq_distance, seq_gap, SeqNumber};
use crate::runtime::BufferPool;
use crate::sync::Bytes;
use std::collections::VecDeque;
use vstd::prelude::*;

verus! {

/// How long a segment may wait for its acknowledgment before it is sent
/// again, in nanoseconds.
pub const RETRANSMIT_TIMEOUT: u64 = 1_000_000_000;

/// Where the sending direction stands. It only moves forwards.
#[derive(Clone, Copy, Debug, PartialEq, Eq, Structural)]
pub enum SenderState {
    /// Data may be sent.
    Established,
    /// The FIN was sent and waits for its acknowledgment.
    FinWait,
    /// The FIN was acknowledged: nothing more is sent.
    Closed,
}

/// The deadline `RETRANSMIT_TIMEOUT` after `now`, held at the end of the
/// clock's range.
pub open spec fn retransmit_deadline_after(now: u64) -> u64 {
    if now + RETRANSMIT_TIMEOUT <= u64::MAX {
        (now + RETRANSMIT_TIMEOUT) as u64
    } else {
        u64::MAX
    }
}

/// The sender as plain values.
pub struct SenderView {
    pub state: SenderState,
    /// The sequence number of the first byte that the peer has not
    /// acknowledged.
    pub base_seq_no: u32,
    /// The sequence number of the next byte to send.
    pub sent_seq_no: u32,
    /// The segments that wait for their acknowledgment, oldest first.
    pub unacked_queue: Seq<Bytes>,
    /// When the oldest segment is sent again at the latest.
    pub retransmit_deadline: Option<u64>,
    /// How many bytes the peer is ready to take beyond `base_seq_no`.
    pub window_size: u32,
}

/// What is due to be sent again.
pub enum Retransmit {
    /// Nothing is due.
    Nothing,
    /// The segment that starts at the sequence number.
    Data(u32, Bytes),
    /// The FIN, which has the sequence number.
    Fin(u32),
}

impl SenderView {
    /// How many bytes of data wait for their acknowledgment.
    pub open spec fn in_flight(self) -> nat {
        queued_bytes(self.unacked_queue)
    }

    /// How many sequence numbers wait for their acknowledgment: one for
    /// every byte of data, and one for a FIN.
    pub open spec fn outstanding(self) -> int {
        self.in_flight() + if self.state == SenderState::FinWait {
            1int
        } else {
            0int
        }
    }

    /// The sender's invariant: the sequence numbers between `base_seq_no`
    /// and `sent_seq_no` are those that wait for their acknowledgment.
    pub open spec fn wf(self) -> bool {
        &&& self.in_flight() <= u32::MAX - 1
        &&& seq_distance(self.base_seq_no, self.sent_seq_no) == self.outstanding()
        &&& self.state == SenderState::Closed ==> self.unacked_queue.len() == 0
    }

    /// Whether `buf` may be sent: the sender is open and the peer's window
    /// has room for it behind what is in flight.
    pub open spec fn can_send(self, buf: Bytes) -> bool {
        &&& self.state == SenderState::Established
        &&& self.in_flight() + buf@.len() <= self.window_size
        &&& self.in_flight() + buf@.len() <= u32::MAX - 1
    }

    /// The outcome of `send`: the sequence number that the segment goes out
    /// with, or why it does not go out.
    pub open spec fn send_result(self, buf: Bytes) -> Result<u32, Fail> {
        if self.state != SenderState::Established {
            Err(Fail::ResourceNotFound { details: "Sender closed" })
        } else if !self.can_send(buf) {
            Err(Fail::ResourceExhausted { details: "Send window full" })
        } else {
            Ok(self.sent_seq_no)
        }
    }

    /// The sender after `send`.
    pub open spec fn send(self, buf: Bytes, now: u64) -> SenderView {
        if self.can_send(buf) {
            SenderView {
                sent_seq_no: seq_add(self.sent_seq_no, buf@.len() as int),
                unacked_queue: self.unacked_queue.push(buf),
                retransmit_deadline: if self.retransmit_deadline is None {
                    Some(retransmit_deadline_after(now))
                } else {
                    self.retransmit_deadline
                },
                ..self
            }
        } else {
            self
        }
    }

    /// The sender after its FIN went out.
    pub open spec fn close(self, now: u64) -> SenderView {
        if self.state == SenderState::Established {
            SenderView {
                state: SenderState::FinWait,
                sent_seq_no: seq_add(self.sent_seq_no, 1),
                retransmit_deadline: if self.retransmit_deadline is None {
                    Some(retransmit_deadline_after(now))
                } else {
                    self.retransmit_deadline
                },
                ..self
            }
        } else {
            self
        }
    }

    /// Whether an acknowledgment of everything before `ack_seq_no` speaks
    /// of sequence numbers that were sent.
    pub open spec fn acceptable_ack(self, ack_seq_no: u32) -> bool {
        seq_distance(self.base_seq_no, ack_seq_no) <= self.outstanding()
    }

    /// How many segments at the front of `queue` an acknowledgment of
    /// `acked` bytes covers in full.
    pub open spec fn covered(queue: Seq<Bytes>, acked: int) -> nat
        decreases queue.len(),
    {
        if queue.len() > 0 && queue[0]@.len() <= acked {
            1 + Self::covered(queue.skip(1), acked - queue[0]@.len())
        } else {
            0
        }
    }

    /// The sender after the peer acknowledged everything before
    /// `ack_seq_no` and offered the window `window_size` at time `now`. The
    /// segments that the acknowledgment covers in full leave the queue; the
    /// acknowledgment of everything that was sent ends the wait for a FIN.
    pub open spec fn remote_ack(self, ack_seq_no: u32, window_size: u32, now: u64) -> SenderView {
        if self.acceptable_ack(ack_seq_no) {
            let count = Self::covered(
                self.unacked_queue,
                seq_distance(self.base_seq_no, ack_seq_no),
            );
            let all = ack_seq_no == self.sent_seq_no;
            SenderView {
                state: if all && self.state == SenderState::FinWait {
                    SenderState::Closed
                } else {
                    self.state
                },
                base_seq_no: if all {
                    ack_seq_no
                } else {
                    seq_add(
                        self.base_seq_no,
                        queued_bytes(self.unacked_queue.take(count as int)) as int,
                    )
                },
                unacked_queue: self.unacked_queue.skip(count as int),
                retransmit_deadline: if all {
                    None
                } else if count > 0 {
                    Some(retransmit_deadline_after(now))
                } else {
                    self.retransmit_deadline
                },
                window_size,
                ..self
            }
        } else {
            self
        }
    }

    /// The segments that leave the queue with the acknowledgment of
    /// everything before `ack_seq_no`.
    pub open spec fn acked_segments(self, ack_seq_no: u32) -> Seq<Bytes> {
        if self.acceptable_ack(ack_seq_no) {
            self.unacked_queue.take(
                Self::covered(self.unacked_queue, seq_distance(self.base_seq_no, ack_seq_no)) as int,
            )
        } else {
            Seq::empty()
        }
    }

    /// What is due to be sent again at time `now`.
    pub open spec fn due(self, now: u64) -> Retransmit {
        match self.retransmit_deadline {
            Some(deadline) => if now < deadline {
                Retransmit::Nothing
            } else if self.unacked_queue.len() > 0 {
                Retransmit::Data(self.base_seq_no, self.unacked_queue[0])
            } else if self.state == SenderState::FinWait {
                Retransmit::Fin(self.base_seq_no)
            } else {
                Retransmit::Nothing
            },
            None => Retransmit::Nothing,
        }
    }
}

/// An acknowledgment of at least as many bytes as a queue holds covers
/// every segment of the queue.
pub proof fn lemma_covered_all(queue: Seq<Bytes>, acked: int)
    requires
        queued_bytes(queue) <= acked,
    ensures
        SenderView::covered(queue, acked) == queue.len(),
    decreases queue.len(),
{
    if queue.len() > 0 {
        lemma_queued_bytes_skip(queue);
        lemma_covered_all(queue.skip(1), acked - queue[0]@.len());
    }
}

/// The sending half of an established connection.
pub struct Sender {
    state: SenderState,
    base_seq_no: SeqNumber,
    sent_seq_no: SeqNumber,
    unacked_queue: VecDeque<Bytes>,
    retransmit_deadline: Option<u64>,
    window_size: u32,
}

impl View for Sender {
    type V = SenderView;

    closed spec fn view(&self) -> SenderView {
        SenderView {
            state: self.state,
            base_seq_no: self.base_seq_no,
            sent_seq_no: self.sent_seq_no,
            unacked_queue: self.unacked_queue@,
            retransmit_deadline: self.retransmit_deadline,
            window_size: self.window_size,
        }
    }
}

impl Sender {
    /// Whether the sender keeps its invariant.
    pub open spec fn wf(&self) -> bool {
        self@.wf()
    }

    /// A sender whose first byte will have the sequence number `seq_no`,
    /// for a peer that offers the window `window_size`.
    pub fn new(seq_no: SeqNumber, window_size: u32) -> (s: Sender)
        ensures
            s.wf(),
            s@ == (SenderView {
                state: SenderState::Established,
                base_seq_no: seq_no,
                sent_seq_no: seq_no,
                unacked_queue: Seq::empty(),
                retransmit_deadline: None,
                window_size,
            }),
    {
        let s = Sender {
            state: SenderState::Established,
            base_seq_no: seq_no,
            sent_seq_no: seq_no,
            unacked_queue: VecDeque::new(),
            retransmit_deadline: None,
            window_size,
        };
        assert(s@.unacked_queue =~= Seq::<Bytes>::empty());
        s
    }

    pub fn state(&self) -> (state: SenderState)
        ensures
            state == self@.state,
    {
        self.state
    }

    /// The sequence number of the next byte to send.
    pub fn sent_seq_no(&self) -> (seq_no: SeqNumber)
        ensures
            seq_no == self@.sent_seq_no,
    {
        self.sent_seq_no
    }

    /// Takes `buf` in as sent at time `now` and gives the sequence number
    /// that it goes out with. A view of `buf` is kept until the peer has
    /// acknowledged it.
    pub fn send(&mut self, buf: &Bytes, now: u64) -> (sent: Result<SeqNumber, Fail>)
        requires
            old(self).wf(),
        ensures
            final(self).wf(),
            sent == old(self)@.send_result(*buf),
            final(self)@ == old(self)@.send(*buf, now),
    {
        if self.state != SenderState::Established {
            return Err(Fail::ResourceNotFound { details: "Sender closed" });
        }
        let in_flight = seq_gap(self.base_seq_no, self.sent_seq_no);
        if in_flight > self.window_size || buf.len() > (self.window_size - in_flight) as usize
            || buf.len() > (u32::MAX - 1 - in_flight) as usize {
            return Err(Fail::ResourceExhausted { details: "Send window full" });
        }
        let seq_no = self.sent_seq_no;
        let kept = buf.clone();
        proof {
            lemma_queued_bytes_push(self.unacked_queue@, kept);
            lemma_distance_grows(self.base_seq_no, self.sent_seq_no, buf@.len() as int);
        }
        self.sent_seq_no = seq_advance(self.sent_seq_no, buf.len() as u32);
        self.unacked_queue.push_back(kept);
        if self.retransmit_deadline.is_none() {
            self.retransmit_deadline = Some(now.saturating_add(RETRANSMIT_TIMEOUT));
        }
        Ok(seq_no)
    }

    /// Ends the sending direction: gives the sequence number that the FIN
    /// goes out with.
    pub fn close(&mut self, now: u64) -> (fin: Result<SeqNumber, Fail>)
        requires
            old(self).wf(),
        ensures
            final(self).wf(),
            final(self)@ == old(self)@.close(now),
            fin == (if old(self)@.state == SenderState::Established {
                Ok(old(self)@.sent_seq_no)
            } else {
                Err(Fail::ResourceNotFound { details: "Sender closed" })
            }),
    {
        if self.state != SenderState::Established {
            return Err(Fail::ResourceNotFound { details: "Sender closed" });
        }
        let seq_no = self.sent_seq_no;
        proof {
            lemma_distance_grows(self.base_seq_no, self.sent_seq_no, 1);
        }
        self.state = SenderState::FinWait;
        self.sent_seq_no = seq_advance(self.sent_seq_no, 1);
        if self.retransmit_deadline.is_none() {
            self.retransmit_deadline = Some(now.saturating_add(RETRANSMIT_TIMEOUT));
        }
        Ok(seq_no)
    }

    /// Takes the segments that `acked` bytes cover in full out of the
    /// queue and donates them to `pool`.
    fn pop_acked(&mut self, acked: u32, pool: &mut BufferPool) -> (count: Ghost<nat>)
        requires
            old(self).wf(),
            acked <= old(self)@.outstanding(),
        ensures
            count@ == SenderView::covered(old(self)@.unacked_queue, acked as int),
            count@ <= old(self)@.unacked_queue.len(),
            final(self)@ == (SenderView {
                base_seq_no: seq_add(
                    old(self)@.base_seq_no,
                    queued_bytes(old(self)@.unacked_queue.take(count@ as int)) as int,
                ),
                unacked_queue: old(self)@.unacked_queue.skip(count@ as int),
                ..old(self)@
            }),
            queued_bytes(old(self)@.unacked_queue.take(count@ as int)) <= acked,
            queued_bytes(old(self)@.unacked_queue.take(count@ as int)) + final(self)@.in_flight()
                == old(self)@.in_flight(),
            seq_distance(final(self)@.base_seq_no, final(self)@.sent_seq_no) == old(
                self,
            )@.outstanding() - queued_bytes(old(self)@.unacked_queue.take(count@ as int)),
            old(pool)@.donated_all(old(self)@.unacked_queue.take(count@ as int), final(pool)@),
    {
        let ghost start = self@;
        let ghost mut popped: nat = 0;
        let mut left: u32 = acked;
        proof {
            assert(start.unacked_queue.take(0) =~= Seq::<Bytes>::empty());
            assert(start.unacked_queue.skip(0) =~= start.unacked_queue);
        }
        loop
            invariant
                start == old(self)@,
                popped <= start.unacked_queue.len(),
                left <= acked,
                self@ == (SenderView {
                    unacked_queue: start.unacked_queue.skip(popped as int),
                    ..start
                }),
                queued_bytes(start.unacked_queue.take(popped as int)) == acked - left,
                queued_bytes(start.unacked_queue.take(popped as int)) + self@.in_flight()
                    == start.in_flight(),
                SenderView::covered(start.unacked_queue, acked as int) == popped
                    + SenderView::covered(self@.unacked_queue, left as int),
                old(pool)@.donated_all(start.unacked_queue.take(popped as int), pool@),
            ensures
                SenderView::covered(self@.unacked_queue, left as int) == 0,
            decreases self@.unacked_queue.len(),
        {
            if self.unacked_queue.len() == 0 {
                break ;
            }
            let front_len = self.unacked_queue[0].len();
            if (left as usize) < front_len {
                break ;
            }
            let ghost before = self@;
            let ghost mid = pool@;
            let segment = self.unacked_queue.pop_front().unwrap();
            proof {
                let taken = start.unacked_queue.take(popped as int + 1);
                assert(self@.unacked_queue =~= start.unacked_queue.skip(popped as int + 1));
                assert(before.unacked_queue.skip(1) =~= self@.unacked_queue);
                assert(segment == start.unacked_queue[popped as int]);
                assert(taken.drop_last() =~= start.unacked_queue.take(popped as int));
                assert(taken.last() == segment);
                lemma_queued_bytes_skip(before.unacked_queue);
            }
            left = left - front_len as u32;
            pool.donate_buffer(segment);
            proof {
                let taken = start.unacked_queue.take(popped as int + 1);
                assert(old(pool)@.donated_all(taken.drop_last(), mid));
                assert(mid.donated(taken.last(), pool@));
                assert(old(pool)@.donated_all(taken, pool@));
                popped = popped + 1;
            }
        }
        proof {
            lemma_distance_shrinks(start.base_seq_no, start.sent_seq_no, acked - left);
        }
        self.base_seq_no = seq_advance(self.base_seq_no, acked - left);
        Ghost(popped)
    }

    /// Takes in the peer's acknowledgment of everything before
    /// `ack_seq_no`, with the window `window_size` that the peer offers from
    /// there on. The segments that are acknowledged in full are donated to
    /// `pool`. An acknowledgment of what was never sent is ignored.
    pub fn remote_ack(
        &mut self,
        ack_seq_no: SeqNumber,
        window_size: u32,
        now: u64,
        pool: &mut BufferPool,
    ) -> (done: Result<(), Fail>)
        requires
            old(self).wf(),
        ensures
            final(self).wf(),
            final(self)@ == old(self)@.remote_ack(ack_seq_no, window_size, now),
            old(pool)@.donated_all(old(self)@.acked_segments(ack_seq_no), final(pool)@),
            done == (if old(self)@.acceptable_ack(ack_seq_no) {
                Ok(())
            } else {
                Err(Fail::Ignored { details: "Acknowledgment out of range" })
            }),
    {
        let acked = seq_gap(self.base_seq_no, ack_seq_no);
        let outstanding = seq_gap(self.base_seq_no, self.sent_seq_no);
        if acked > outstanding {
            return Err(Fail::Ignored { details: "Acknowledgment out of range" });
        }
        let waiting = self.unacked_queue.len();
        let popped = self.pop_acked(acked, pool);
        self.window_size = window_size;
        if ack_seq_no == self.sent_seq_no {
            proof {
                let queue = old(self)@.unacked_queue;
                lemma_covered_all(queue, acked as int);
                assert(queue.take(queue.len() as int) =~= queue);
            }
            if self.state == SenderState::FinWait {
                self.state = SenderState::Closed;
            }
            self.base_seq_no = ack_seq_no;
            self.retransmit_deadline = None;
        } else if self.unacked_queue.len() < waiting {
            self.retransmit_deadline = Some(now.saturating_add(RETRANSMIT_TIMEOUT));
        }
        Ok(())
    }

    /// Says what is due to be sent again at time `now`, and sets the
    /// deadline anew where something is.
    pub fn retransmit(&mut self, now: u64) -> (due: Retransmit)
        requires
            old(self).wf(),
        ensures
            final(self).wf(),
            match old(self)@.due(now) {
                Retransmit::Nothing => due is Nothing && final(self)@ == old(self)@,
                Retransmit::Data(seq_no, segment) => due == Retransmit::Data(seq_no, segment)
                    && final(self)@ == (SenderView {
                    retransmit_deadline: Some(retransmit_deadline_after(now)),
                    ..old(self)@
                }),
                Retransmit::Fin(seq_no) => due == Retransmit::Fin(seq_no) && final(self)@
                    == (SenderView {
                    retransmit_deadline: Some(retransmit_deadline_after(now)),
                    ..old(self)@
                }),
            },
    {
        let deadline = match self.retransmit_deadline {
            Some(deadline) => deadline,
            None => {
                return Retransmit::Nothing;
            },
        };
        if now < deadline {
            return Retransmit::Nothing;
        }
        if self.unacked_queue.len() > 0 {
            let segment = self.unacked_queue[0].clone();
            self.retransmit_deadline = Some(now.saturating_add(RETRANSMIT_TIMEOUT));
            Retransmit::Data(self.base_seq_no, segment)
        } else if self.state == SenderState::FinWait {
            self.retransmit_deadline = Some(now.saturating_add(RETRANSMIT_TIMEOUT));
            Retransmit::Fin(self.base_seq_no)
        } else {
            Retransmit::Nothing
        }
    }
}

} // verus!
