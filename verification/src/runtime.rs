//! What the stack shares with the runtime that embeds it: packet buffers,
//! the pool that recycles payload stores, the queue of pending wake-ups and
//! the clock.

use crate::protocols::tcp::segment::TcpSegment;
use crate::protocols::udp::OutgoingReq;
use crate::sync::{same_bytes, BufEnum, Bytes, BytesMut, Waker};
use rand::rngs::SmallRng;
use rand::{Rng, SeedableRng};
use std::collections::VecDeque;
use std::rc::Rc;
use vstd::prelude::*;

verus! {

/// The size of a packet buffer: one Ethernet frame.
pub const PKTBUF_SIZE: usize = 1514;

/// The size of the payload stores that the pool keeps.
pub const ALLOC_SIZE: usize = 12288;

/// How many stores a pool is filled with at start.
pub const POOL_SIZE: usize = 1024;

/// A window of `len` bytes from `offset` on into a frame-sized buffer that
/// the window owns. Headers are stripped and put back by moving the window.
#[derive(Debug)]
pub struct PacketBuf {
    buf: Option<Box<[u8; 1514]>>,
    offset: usize,
    len: usize,
}

impl View for PacketBuf {
    type V = Seq<u8>;

    closed spec fn view(&self) -> Seq<u8> {
        match self.buf {
            None => Seq::empty(),
            Some(b) => b@.subrange(self.offset as int, self.offset + self.len),
        }
    }
}

impl PacketBuf {
    #[verifier::type_invariant]
    spec fn inv(self) -> bool {
        match self.buf {
            None => self.offset == 0 && self.len == 0,
            Some(b) => self.offset + self.len <= PKTBUF_SIZE,
        }
    }

    /// The frame behind the window, if there is one.
    pub closed spec fn frame(&self) -> Option<Seq<u8>> {
        match self.buf {
            None => None,
            Some(b) => Some(b@),
        }
    }

    /// Where in its frame the window begins.
    pub closed spec fn spec_offset(&self) -> nat {
        self.offset as nat
    }

    /// Where in its frame the window begins. The window shows the bytes of
    /// its frame from there on; without a frame it shows nothing.
    pub fn offset(&self) -> (at: usize)
        ensures
            at == self.spec_offset(),
            match self.frame() {
                Some(frame) => {
                    &&& frame.len() == PKTBUF_SIZE
                    &&& at + self@.len() <= PKTBUF_SIZE
                    &&& self@ == frame.subrange(at as int, at + self@.len())
                },
                None => self@ == Seq::<u8>::empty() && at == 0,
            },
    {
        proof {
            use_type_invariant(self);
        }
        self.offset
    }

    /// A window over a fresh frame of zero bytes.
    pub fn zeroed() -> (p: PacketBuf)
        ensures
            p@ == Seq::new(PKTBUF_SIZE as nat, |i: int| 0u8),
            p.frame() == Some(p@),
            p.spec_offset() == 0,
    {
        let p = PacketBuf::new(Box::new([0u8; 1514]));
        assert(p@ =~= Seq::new(PKTBUF_SIZE as nat, |i: int| 0u8));
        p
    }

    /// A window over the whole of `buf`.
    pub fn new(buf: Box<[u8; 1514]>) -> (p: PacketBuf)
        ensures
            p@ == buf@,
            p.frame() == Some(buf@),
            p.spec_offset() == 0,
    {
        let p = PacketBuf { len: PKTBUF_SIZE, buf: Some(buf), offset: 0 };
        assert(p@ =~= buf@);
        p
    }

    /// Gives up the window for the frame behind it.
    pub fn into_buf(self) -> (buf: Option<Box<[u8; 1514]>>)
        ensures
            match buf {
                Some(b) => self.frame() == Some(b@),
                None => self.frame() is None,
            },
    {
        self.buf
    }

    /// The window of no bytes, with no frame behind it.
    pub fn empty() -> (p: PacketBuf)
        ensures
            p@ == Seq::<u8>::empty(),
            p.frame() is None,
            p.spec_offset() == 0,
    {
        PacketBuf { buf: None, offset: 0, len: 0 }
    }

    pub fn len(&self) -> (n: usize)
        ensures
            n == self@.len(),
    {
        proof {
            use_type_invariant(self);
        }
        self.len
    }

    /// The bytes in the window.
    pub fn as_slice(&self) -> (s: &[u8])
        ensures
            s@ == self@,
    {
        proof {
            use_type_invariant(self);
        }
        match &self.buf {
            None => {
                let nothing: &[u8] = &[];
                assert(nothing@ =~= self@);
                nothing
            },
            Some(buf) => {
                let all: &[u8] = buf.as_slice();
                &all[self.offset..self.offset + self.len]
            },
        }
    }

    /// Writes one byte of the window.
    pub fn set(&mut self, i: usize, value: u8)
        requires
            i < old(self)@.len(),
        ensures
            final(self)@ == old(self)@.update(i as int, value),
            final(self).spec_offset() == old(self).spec_offset(),
            final(self).frame() == Some(
                old(self).frame()->Some_0.update(old(self).spec_offset() + i, value),
            ),
    {
        proof {
            use_type_invariant(&*self);
        }
        let mut whole = PacketBuf::empty();
        std::mem::swap(self, &mut whole);
        let offset = whole.offset;
        let len = whole.len;
        match whole.buf {
            Some(buf) => {
                let mut buf = buf;
                buf[offset + i] = value;
                *self = PacketBuf { buf: Some(buf), offset, len };
            },
            None => {},
        }
        assert(self@ =~= old(self)@.update(i as int, value));
    }

    /// Drops the first `ix` bytes from the window.
    pub fn split(self, ix: usize) -> (p: PacketBuf)
        requires
            self.frame() is None ==> ix == 0,
            self.frame() is Some ==> ix < self@.len(),
        ensures
            p@ == self@.skip(ix as int),
            p.frame() == self.frame(),
            p.spec_offset() == self.spec_offset() + ix,
    {
        proof {
            use_type_invariant(&self);
        }
        if self.buf.is_none() && ix == 0 {
            assert(self@.skip(0) =~= self@);
            return self;
        }
        let buf = self.buf.unwrap();
        let p = PacketBuf { buf: Some(buf), offset: self.offset + ix, len: self.len - ix };
        assert(p@ =~= self@.skip(ix as int));
        p
    }

    /// Shortens the window to its first `new_len` bytes.
    pub fn trim(self, new_len: usize) -> (p: PacketBuf)
        requires
            new_len < self@.len(),
        ensures
            p@ == self@.take(new_len as int),
            p.frame() == self.frame(),
            p.spec_offset() == self.spec_offset(),
    {
        proof {
            use_type_invariant(&self);
        }
        let p = PacketBuf { buf: self.buf, offset: self.offset, len: new_len };
        assert(p@ =~= self@.take(new_len as int));
        p
    }

    /// Widens the window by the `hdr_bytes` bytes before it, where the frame
    /// has that many.
    pub fn unsplit_left(self, hdr_bytes: usize) -> (wider: Option<PacketBuf>)
        ensures
            match wider {
                None => hdr_bytes > self.spec_offset(),
                Some(p) => {
                    &&& hdr_bytes <= self.spec_offset()
                    &&& p.frame() == self.frame()
                    &&& p.spec_offset() == self.spec_offset() - hdr_bytes
                    &&& p@.len() == self@.len() + hdr_bytes
                    &&& p@.skip(hdr_bytes as int) == self@
                    &&& p.frame() matches Some(frame) ==> p@ == frame.subrange(
                        p.spec_offset() as int,
                        (p.spec_offset() + p@.len()) as int,
                    )
                },
            },
    {
        proof {
            use_type_invariant(&self);
        }
        if hdr_bytes > self.offset {
            return None;
        }
        let p = PacketBuf {
            buf: self.buf,
            offset: self.offset - hdr_bytes,
            len: self.len + hdr_bytes,
        };
        assert(p@.skip(hdr_bytes as int) =~= self@);
        Some(p)
    }

    /// Widens the window by the `padding_bytes` bytes after it, where the
    /// frame has that many.
    pub fn unsplit_right(self, padding_bytes: usize) -> (wider: Option<PacketBuf>)
        ensures
            match wider {
                None => self.frame() is None || self.spec_offset() + self@.len() + padding_bytes
                    > PKTBUF_SIZE,
                Some(p) => {
                    &&& self.frame() is Some
                    &&& self.spec_offset() + self@.len() + padding_bytes <= PKTBUF_SIZE
                    &&& p.frame() == self.frame()
                    &&& p.spec_offset() == self.spec_offset()
                    &&& p@.len() == self@.len() + padding_bytes
                    &&& p@.take(self@.len() as int) == self@
                    &&& p@ == p.frame()->Some_0.subrange(
                        p.spec_offset() as int,
                        (p.spec_offset() + p@.len()) as int,
                    )
                },
            },
    {
        proof {
            use_type_invariant(&self);
        }
        if self.buf.is_none() {
            return None;
        }
        if padding_bytes > PKTBUF_SIZE - (self.offset + self.len) {
            return None;
        }
        let p = PacketBuf { buf: self.buf, offset: self.offset, len: self.len + padding_bytes };
        assert(p@.take(self@.len() as int) =~= self@);
        Some(p)
    }
}

impl PartialEq for PacketBuf {
    /// Two windows are equal where they show the same bytes, whatever their
    /// frames.
    fn eq(&self, rhs: &PacketBuf) -> (same: bool) {
        same_bytes(self.as_slice(), rhs.as_slice())
    }
}

impl vstd::std_specs::cmp::PartialEqSpecImpl for PacketBuf {
    open spec fn obeys_eq_spec() -> bool {
        true
    }

    open spec fn eq_spec(&self, rhs: &PacketBuf) -> bool {
        self@ == rhs@
    }
}

impl Eq for PacketBuf {

}

/// A packet that can be written out as the bytes that go on the wire.
pub trait PacketSerialize: Sized {
    /// The bytes of the packet on the wire.
    spec fn wire(&self) -> Seq<u8>;

    /// How many bytes the packet takes on the wire.
    fn compute_size(&self) -> (size: usize)
        requires
            self.wire().len() <= usize::MAX,
        ensures
            size == self.wire().len(),
    ;

    /// Writes the packet into `buf`, which has the size of the packet.
    fn serialize(&self, buf: &mut [u8])
        requires
            old(buf)@.len() == self.wire().len(),
        ensures
            final(buf)@ == self.wire(),
    ;
}

/// What a pool holds, as plain values.
pub struct PoolView {
    /// The payload stores that wait to be used again, oldest first.
    pub heap: Seq<Seq<u8>>,
    /// The handles of the driver buffers that wait to be handed back to the
    /// driver, oldest first.
    pub released: Seq<u64>,
}

impl PoolView {
    /// The pool after a store came back to it. A heap store of the pool's
    /// size is kept for reuse, any other heap store is let go; a driver
    /// buffer is noted for the driver.
    pub open spec fn recycle(self, store: Option<BufEnum>) -> PoolView {
        match store {
            None => self,
            Some(BufEnum::Rust(b)) => if b@.len() == ALLOC_SIZE {
                PoolView { heap: self.heap.push(b@), ..self }
            } else {
                self
            },
            Some(BufEnum::DPDK(m)) => PoolView {
                released: self.released.push(m.spec_handle()),
                ..self
            },
        }
    }

    /// Whether `after` is this pool once the view `buf` was donated to it:
    /// the store of `buf` came back if no other view shared it.
    pub open spec fn donated(self, buf: Bytes, after: PoolView) -> bool {
        after == self || after == self.recycle(buf.backing())
    }

    /// Whether `after` is this pool once the views `bufs` were donated to
    /// it, one after the other.
    pub open spec fn donated_all(self, bufs: Seq<Bytes>, after: PoolView) -> bool
        decreases bufs.len(),
    {
        if bufs.len() == 0 {
            after == self
        } else {
            exists|mid: PoolView|
                self.donated_all(bufs.drop_last(), mid) && #[trigger] mid.donated(
                    bufs.last(),
                    after,
                )
        }
    }
}

impl PoolView {
    /// A donation after a run of donations is a run of donations.
    pub proof fn lemma_donated_all_push(
        self,
        bufs: Seq<Bytes>,
        mid: PoolView,
        buf: Bytes,
        after: PoolView,
    )
        requires
            self.donated_all(bufs, mid),
            mid.donated(buf, after),
        ensures
            self.donated_all(bufs.push(buf), after),
    {
        let all = bufs.push(buf);
        assert(all.drop_last() =~= bufs);
        assert(all.last() == buf);
        assert(self.donated_all(all.drop_last(), mid));
        assert(mid.donated(all.last(), after));
    }

    /// A run of no donations leaves the pool as it is.
    pub proof fn lemma_donated_none(self)
        ensures
            self.donated_all(Seq::empty(), self),
    {
    }
}

/// The free list of payload stores, and the driver buffers that the stack is
/// done with.
pub struct BufferPool {
    heap: Vec<Rc<Vec<u8>>>,
    released: Vec<u64>,
}

impl View for BufferPool {
    type V = PoolView;

    closed spec fn view(&self) -> PoolView {
        PoolView { heap: self.heap@.map_values(|b: Rc<Vec<u8>>| b@), released: self.released@ }
    }
}

impl BufferPool {
    /// A pool that holds nothing.
    pub fn new() -> (pool: BufferPool)
        ensures
            pool@.heap.len() == 0,
            pool@.released.len() == 0,
    {
        BufferPool { heap: Vec::new(), released: Vec::new() }
    }

    /// A pool filled with `count` zeroed stores.
    pub fn with_stores(count: usize) -> (pool: BufferPool)
        ensures
            pool@.heap == Seq::new(count as nat, |i: int| Seq::new(ALLOC_SIZE as nat, |j: int| 0u8)),
            pool@.released.len() == 0,
    {
        let mut heap: Vec<Rc<Vec<u8>>> = Vec::new();
        let mut i: usize = 0;
        while i < count
            invariant
                i <= count,
                heap@.len() == i,
                forall|k: int|
                    0 <= k < i ==> (#[trigger] heap@[k])@ == Seq::new(
                        ALLOC_SIZE as nat,
                        |j: int| 0u8,
                    ),
            decreases count - i,
        {
            let store = vec![0u8; ALLOC_SIZE];
            assert(store@ =~= Seq::new(ALLOC_SIZE as nat, |j: int| 0u8));
            heap.push(Rc::new(store));
            i = i + 1;
        }
        let pool = BufferPool { heap, released: Vec::new() };
        assert(pool@.heap =~= Seq::new(
            count as nat,
            |i: int| Seq::new(ALLOC_SIZE as nat, |j: int| 0u8),
        ));
        pool
    }

    /// How many stores wait for reuse.
    pub fn available(&self) -> (n: usize)
        ensures
            n == self@.heap.len(),
    {
        self.heap.len()
    }

    /// A buffer of `ALLOC_SIZE` bytes to write into: the store that came
    /// back last, as it was left, or a zeroed one where none is at hand.
    pub fn take(&mut self) -> (buf: BytesMut)
        ensures
            buf@.len() == ALLOC_SIZE,
            final(self)@.released == old(self)@.released,
            old(self)@.heap.len() == 0 ==> final(self)@ == old(self)@ && buf@ == Seq::new(
                ALLOC_SIZE as nat,
                |j: int| 0u8,
            ),
            old(self)@.heap.len() > 0 ==> final(self)@.heap == old(self)@.heap.drop_last() && (buf@
                == old(self)@.heap.last() || buf@ == Seq::new(ALLOC_SIZE as nat, |j: int| 0u8)),
    {
        let popped = self.heap.pop();
        assert(self@.heap =~= if old(self)@.heap.len() > 0 {
            old(self)@.heap.drop_last()
        } else {
            old(self)@.heap
        });
        let reused = match popped {
            Some(store) => BytesMut::from_buf(store),
            None => None,
        };
        match reused {
            Some(buf) => if buf.len() == ALLOC_SIZE {
                buf
            } else {
                BytesMut::zeroed(ALLOC_SIZE)
            },
            None => BytesMut::zeroed(ALLOC_SIZE),
        }
    }

    /// Takes back a store that has a single holder.
    pub fn recycle(&mut self, store: Option<BufEnum>)
        ensures
            final(self)@ == old(self)@.recycle(store),
    {
        match store {
            None => {},
            Some(BufEnum::Rust(b)) => {
                if b.len() == ALLOC_SIZE {
                    self.heap.push(b);
                    assert(self@.heap =~= old(self)@.heap.push(b@));
                }
            },
            Some(BufEnum::DPDK(m)) => {
                self.released.push(m.handle());
            },
        }
    }

    /// Takes a view that the stack is done with. Its store comes back to the
    /// pool where no other view shares it.
    pub fn donate_buffer(&mut self, buf: Bytes)
        ensures
            old(self)@.donated(buf, final(self)@),
    {
        let store = buf.take_buffer();
        self.recycle(store);
    }

    /// Hands out the handles of the driver buffers that came back since the
    /// last call, for the driver to free.
    pub fn take_released(&mut self) -> (handles: Vec<u64>)
        ensures
            handles@ == old(self)@.released,
            final(self)@.released.len() == 0,
            final(self)@.heap == old(self)@.heap,
    {
        let mut handles: Vec<u64> = Vec::new();
        std::mem::swap(&mut handles, &mut self.released);
        handles
    }
}

/// The tasks that were woken since the scheduler last looked, in the order
/// of their waking.
pub struct WakeQueue {
    woken: Vec<u64>,
}

impl View for WakeQueue {
    type V = Seq<u64>;

    closed spec fn view(&self) -> Seq<u64> {
        self.woken@
    }
}

impl WakeQueue {
    pub fn new() -> (q: WakeQueue)
        ensures
            q@.len() == 0,
    {
        WakeQueue { woken: Vec::new() }
    }

    /// Notes that the task behind `waker` is to be resumed.
    pub fn wake(&mut self, waker: Waker)
        ensures
            final(self)@ == old(self)@.push(waker.key),
    {
        self.woken.push(waker.key);
    }

    /// Notes the task behind `waker`, if there is one.
    pub fn wake_if(&mut self, waker: Option<Waker>)
        ensures
            final(self)@ == woken_after(old(self)@, waker),
    {
        if let Some(w) = waker {
            self.wake(w);
        }
    }

    /// Hands out the tasks that were woken since the last call.
    pub fn drain(&mut self) -> (keys: Vec<u64>)
        ensures
            keys@ == old(self)@,
            final(self)@.len() == 0,
    {
        let mut keys: Vec<u64> = Vec::new();
        std::mem::swap(&mut keys, &mut self.woken);
        keys
    }
}

/// The queue of wake-ups after `waker`, if any, was woken.
pub open spec fn woken_after(queue: Seq<u64>, waker: Option<Waker>) -> Seq<u64> {
    match waker {
        Some(w) => queue.push(w.key),
        None => queue,
    }
}

/// The stack's clock: the time of the last tick that the runtime reported,
/// in nanoseconds since the runtime began.
pub struct Timer {
    now: u64,
}

impl View for Timer {
    type V = u64;

    closed spec fn view(&self) -> u64 {
        self.now
    }
}

impl Timer {
    pub fn new(now: u64) -> (t: Timer)
        ensures
            t@ == now,
    {
        Timer { now }
    }

    pub fn now(&self) -> (now: u64)
        ensures
            now == self@,
    {
        self.now
    }

    /// Moves the clock on to `now`. The clock never runs backwards: an
    /// earlier reading leaves it where it is.
    pub fn advance_clock(&mut self, now: u64)
        ensures
            final(self)@ == (if now >= old(self)@ {
                now
            } else {
                old(self)@
            }),
    {
        if now >= self.now {
            self.now = now;
        }
    }
}

/// A shared handle to the clock.
pub struct TimerRc(pub Rc<Timer>);

impl TimerRc {
    pub fn timer(&self) -> (t: &Timer)
        ensures
            *t == *self.0,
    {
        &*self.0
    }
}

/// The protocol number of TCP in an IPv4 header.
pub const IPPROTO_TCP: u8 = 6;

/// The protocol number of UDP in an IPv4 header.
pub const IPPROTO_UDP: u8 = 17;

/// What came in from the network, with the link and IPv4 headers taken off
/// by the runtime: the protocol number, the two addresses, and the bytes
/// that the transport protocol is to read.
#[derive(Debug)]
pub struct Frame {
    pub protocol: u8,
    pub src_addr: u32,
    pub dst_addr: u32,
    pub payload: Bytes,
}

/// What goes out to the network: the runtime wraps it in IPv4 and link
/// headers and transmits it.
pub enum Packet {
    Tcp(TcpSegment),
    Udp(OutgoingReq),
}

/// The settings of the TCP engine.
#[derive(Clone, Copy, Debug, PartialEq, Eq, Structural)]
pub struct TcpOptions {
    /// How many unread bytes a connection buffers for the application.
    pub receive_window_size: u32,
    /// The window scale that is kept with each receiver.
    pub window_scale: u8,
}

/// The generator of rand, which the verifier carries through unopened.
#[verifier::external_type_specification]
#[verifier::external_body]
pub struct ExSmallRng(SmallRng);

/// `SmallRng::seed_from_u64` of rand: a generator that starts from `seed`.
#[verifier::external_body]
fn rng_from_seed(seed: u64) -> (rng: SmallRng) {
    SmallRng::seed_from_u64(seed)
}

/// `Rng::gen` of rand, for a `u32`: the next number of the generator. Any
/// number may come.
#[verifier::external_body]
fn rng_next_u32(rng: &mut SmallRng) -> (number: u32) {
    rng.gen()
}

/// The runtime's side of the stack as plain values.
pub struct RuntimeView {
    /// The time of the last clock tick.
    pub now: u64,
    pub pool: PoolView,
    /// The tasks that wait to be resumed, in the order of their waking.
    pub wakes: Seq<u64>,
    /// What waits to be transmitted, oldest first.
    pub outgoing: Seq<Packet>,
    /// What came in and waits to be looked at, oldest first.
    pub incoming: Seq<Frame>,
    pub ipv4_addr: u32,
    pub tcp_options: TcpOptions,
}

/// What the stack shares with the runtime that embeds it. The runtime puts
/// what came in from the network into `incoming`, takes what is to go out
/// from `outgoing`, and reports the time.
pub struct Runtime {
    pub timer: Timer,
    pub pool: BufferPool,
    pub wakes: WakeQueue,
    pub outgoing: VecDeque<Packet>,
    pub incoming: VecDeque<Frame>,
    pub ipv4_addr: u32,
    pub tcp_options: TcpOptions,
    pub rng: SmallRng,
}

impl View for Runtime {
    type V = RuntimeView;

    open spec fn view(&self) -> RuntimeView {
        RuntimeView {
            now: self.timer@,
            pool: self.pool@,
            wakes: self.wakes@,
            outgoing: self.outgoing@,
            incoming: self.incoming@,
            ipv4_addr: self.ipv4_addr,
            tcp_options: self.tcp_options,
        }
    }
}

impl Runtime {
    /// A runtime at the address `ipv4_addr` whose clock reads `now`, with
    /// nothing queued and an empty pool. Its random numbers start from
    /// `seed`.
    pub fn new(now: u64, ipv4_addr: u32, tcp_options: TcpOptions, seed: u64) -> (rt: Runtime)
        ensures
            rt@ == (RuntimeView {
                now,
                pool: PoolView { heap: Seq::empty(), released: Seq::empty() },
                wakes: Seq::empty(),
                outgoing: Seq::empty(),
                incoming: Seq::empty(),
                ipv4_addr,
                tcp_options,
            }),
    {
        let rt = Runtime {
            timer: Timer::new(now),
            pool: BufferPool::new(),
            wakes: WakeQueue::new(),
            outgoing: VecDeque::new(),
            incoming: VecDeque::new(),
            ipv4_addr,
            tcp_options,
            rng: rng_from_seed(seed),
        };
        assert(rt@.pool.heap =~= Seq::<Seq<u8>>::empty());
        assert(rt@.pool.released =~= Seq::<u64>::empty());
        assert(rt@.wakes =~= Seq::<u64>::empty());
        assert(rt@.outgoing =~= Seq::<Packet>::empty());
        assert(rt@.incoming =~= Seq::<Frame>::empty());
        rt
    }

    /// The time of the last clock tick.
    pub fn now(&self) -> (now: u64)
        ensures
            now == self@.now,
    {
        self.timer.now()
    }

    /// Moves the clock on to `now`.
    pub fn advance_clock(&mut self, now: u64)
        ensures
            final(self)@ == (RuntimeView {
                now: if now >= old(self)@.now {
                    now
                } else {
                    old(self)@.now
                },
                ..old(self)@
            }),
    {
        self.timer.advance_clock(now);
    }

    /// Queues `packet` for transmission.
    pub fn transmit(&mut self, packet: Packet)
        ensures
            final(self)@ == (RuntimeView {
                outgoing: old(self)@.outgoing.push(packet),
                ..old(self)@
            }),
    {
        self.outgoing.push_back(packet);
    }

    /// Hands out what has waited longest to be transmitted.
    pub fn pop_outgoing(&mut self) -> (packet: Option<Packet>)
        ensures
            match packet {
                Some(p) => old(self)@.outgoing.len() > 0 && p == old(self)@.outgoing[0]
                    && final(self)@ == (RuntimeView {
                    outgoing: old(self)@.outgoing.skip(1),
                    ..old(self)@
                }),
                None => old(self)@.outgoing.len() == 0 && final(self)@ == old(self)@,
            },
    {
        let packet = self.outgoing.pop_front();
        assert(packet is Some ==> self@.outgoing =~= old(self)@.outgoing.skip(1));
        packet
    }

    /// Takes in what came from the network, to be looked at on the next
    /// round.
    pub fn deliver(&mut self, frame: Frame)
        ensures
            final(self)@ == (RuntimeView {
                incoming: old(self)@.incoming.push(frame),
                ..old(self)@
            }),
    {
        self.incoming.push_back(frame);
    }

    /// Hands out what came in first and was not looked at.
    pub fn receive(&mut self) -> (frame: Option<Frame>)
        ensures
            match frame {
                Some(f) => old(self)@.incoming.len() > 0 && f == old(self)@.incoming[0]
                    && final(self)@ == (RuntimeView {
                    incoming: old(self)@.incoming.skip(1),
                    ..old(self)@
                }),
                None => old(self)@.incoming.len() == 0 && final(self)@ == old(self)@,
            },
    {
        let frame = self.incoming.pop_front();
        assert(frame is Some ==> self@.incoming =~= old(self)@.incoming.skip(1));
        frame
    }

    /// A random number. Any number may come.
    pub fn rng_gen(&mut self) -> (number: u32)
        ensures
            final(self)@ == old(self)@,
    {
        rng_next_u32(&mut self.rng)
    }

    /// Takes a view that the stack is done with.
    pub fn donate_buffer(&mut self, buf: Bytes)
        ensures
            old(self)@.pool.donated(buf, final(self)@.pool),
            final(self)@ == (RuntimeView { pool: final(self)@.pool, ..old(self)@ }),
    {
        self.pool.donate_buffer(buf);
    }
}

} // verus!
