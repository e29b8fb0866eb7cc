//! Single-threaded sharing primitives: waker slots, a notification word and
//! the reference-counted byte views that carry every payload.

use std::rc::Rc;
use vstd::prelude::*;

verus! {

/// `Rc::clone` on a shared byte store: another handle to the same bytes.
/// The contract claims that the new handle points at the value the old one
/// points at; the store's reference count is not visible to the verifier.
#[verifier::external_body]
fn share_store(store: &Rc<Vec<u8>>) -> (shared: Rc<Vec<u8>>)
    ensures
        shared == *store,
{
    Rc::clone(store)
}

/// A packet buffer that the NIC driver owns, as the stack sees it: the
/// driver's handle for the buffer and the bytes of its data room, of which
/// `data_len` bytes from `data_off` on are in use.
#[derive(Debug)]
pub struct Mbuf {
    handle: u64,
    room: Rc<Vec<u8>>,
    data_off: usize,
    data_len: usize,
}

impl View for Mbuf {
    type V = Seq<u8>;

    closed spec fn view(&self) -> Seq<u8> {
        self.room@.subrange(self.data_off as int, self.data_off + self.data_len)
    }
}

impl Mbuf {
    #[verifier::type_invariant]
    spec fn inv(self) -> bool {
        self.data_off + self.data_len <= self.room@.len()
    }

    /// The handle under which the driver knows this buffer.
    pub closed spec fn spec_handle(&self) -> u64 {
        self.handle
    }

    /// Wraps a data room that the driver handed over; all of it is in use.
    pub fn new(handle: u64, room: Vec<u8>) -> (m: Mbuf)
        ensures
            m@ == room@,
            m.spec_handle() == handle,
    {
        let data_len = room.len();
        let m = Mbuf { handle, room: Rc::new(room), data_off: 0, data_len };
        assert(m@ =~= room@);
        m
    }

    pub fn handle(&self) -> (h: u64)
        ensures
            h == self.spec_handle(),
    {
        self.handle
    }

    pub fn len(&self) -> (n: usize)
        ensures
            n == self@.len(),
    {
        proof {
            use_type_invariant(self);
        }
        self.data_len
    }

    pub fn as_slice(&self) -> (s: &[u8])
        ensures
            s@ == self@,
    {
        proof {
            use_type_invariant(self);
        }
        let all: &[u8] = self.room.as_slice();
        let end: usize = all.len();
        assert(self.data_off + self.data_len <= end);
        &all[self.data_off..self.data_off + self.data_len]
    }

    /// Strips `bytes` bytes from the front of the data in use.
    pub fn adjust(&mut self, bytes: usize)
        requires
            bytes <= old(self)@.len(),
        ensures
            final(self)@ == old(self)@.skip(bytes as int),
            final(self).spec_handle() == old(self).spec_handle(),
    {
        proof {
            use_type_invariant(&*self);
        }
        let room_len: usize = self.room.len();
        self.data_len = self.data_len - bytes;
        self.data_off = self.data_off + bytes;
        assert(self@ =~= old(self)@.skip(bytes as int));
    }

    /// Removes `bytes` bytes from the end of the data in use.
    pub fn trim(&mut self, bytes: usize)
        requires
            bytes <= old(self)@.len(),
        ensures
            final(self)@ == old(self)@.take(old(self)@.len() - bytes),
            final(self).spec_handle() == old(self).spec_handle(),
    {
        proof {
            use_type_invariant(&*self);
        }
        self.data_len = self.data_len - bytes;
        assert(self@ =~= old(self)@.take(old(self)@.len() - bytes));
    }
}

impl Clone for Mbuf {
    /// Another handle to the same driver buffer; no byte is copied.
    fn clone(&self) -> (other: Mbuf)
        ensures
            other == *self,
    {
        proof {
            use_type_invariant(self);
        }
        Mbuf {
            handle: self.handle,
            room: share_store(&self.room),
            data_off: self.data_off,
            data_len: self.data_len,
        }
    }
}

impl Mbuf {
    /// Gives the buffer back as its only holder, or nothing where another
    /// handle to the same driver buffer is still alive.
    pub fn into_unique(self) -> (only: Option<Mbuf>)
        ensures
            only matches Some(m) ==> m == self,
    {
        proof {
            use_type_invariant(&self);
        }
        match sole_bytes(Rc::try_unwrap(self.room)) {
            Some(room) => Some(
                Mbuf {
                    handle: self.handle,
                    room: Rc::new(room),
                    data_off: self.data_off,
                    data_len: self.data_len,
                },
            ),
            None => None,
        }
    }
}

/// The backing store of a byte view: heap memory shared by count, or a
/// buffer of the NIC driver.
#[derive(Debug)]
pub enum BufEnum {
    Rust(Rc<Vec<u8>>),
    DPDK(Mbuf),
}

impl View for BufEnum {
    type V = Seq<u8>;

    open spec fn view(&self) -> Seq<u8> {
        match self {
            BufEnum::Rust(b) => b@,
            BufEnum::DPDK(m) => m@,
        }
    }
}

impl BufEnum {
    pub fn len(&self) -> (n: usize)
        ensures
            n == self@.len(),
    {
        match self {
            BufEnum::Rust(b) => b.len(),
            BufEnum::DPDK(m) => m.len(),
        }
    }

    pub fn as_slice(&self) -> (s: &[u8])
        ensures
            s@ == self@,
    {
        match self {
            BufEnum::Rust(b) => b.as_slice(),
            BufEnum::DPDK(m) => m.as_slice(),
        }
    }

    /// Gives the store back as its only holder, or nothing where it is
    /// still shared.
    pub fn into_unique(self) -> (only: Option<BufEnum>)
        ensures
            only matches Some(b) ==> b == self,
    {
        match self {
            BufEnum::Rust(b) => match sole_bytes(Rc::try_unwrap(b)) {
                Some(bytes) => Some(BufEnum::Rust(Rc::new(bytes))),
                None => None,
            },
            BufEnum::DPDK(m) => match m.into_unique() {
                Some(m) => Some(BufEnum::DPDK(m)),
                None => None,
            },
        }
    }
}

impl Clone for BufEnum {
    /// Another handle to the same store; no byte is copied.
    fn clone(&self) -> (other: BufEnum)
        ensures
            other == *self,
    {
        match self {
            BufEnum::Rust(b) => BufEnum::Rust(share_store(b)),
            BufEnum::DPDK(m) => BufEnum::DPDK(m.clone()),
        }
    }
}

/// An immutable view of `len` bytes from `offset` on of a shared backing
/// store. Views are cut and copied without touching the payload.
#[derive(Debug)]
pub struct Bytes {
    buf: Option<BufEnum>,
    offset: usize,
    len: usize,
}

impl View for Bytes {
    type V = Seq<u8>;

    closed spec fn view(&self) -> Seq<u8> {
        match self.buf {
            None => Seq::empty(),
            Some(b) => b@.subrange(self.offset as int, self.offset + self.len),
        }
    }
}

impl Bytes {
    #[verifier::type_invariant]
    spec fn inv(self) -> bool {
        match self.buf {
            None => self.offset == 0 && self.len == 0,
            Some(b) => self.offset + self.len <= b@.len(),
        }
    }

    /// The store that this view looks into, if it has one.
    pub closed spec fn backing(&self) -> Option<BufEnum> {
        self.buf
    }

    /// Where in its store the view begins.
    pub closed spec fn spec_offset(&self) -> nat {
        self.offset as nat
    }

    /// The view of no bytes, with no store behind it.
    pub closed spec fn spec_empty() -> Bytes {
        Bytes { buf: None, offset: 0, len: 0 }
    }

    /// The empty view shows no bytes and has no store.
    pub proof fn lemma_spec_empty()
        ensures
            Self::spec_empty()@ == Seq::<u8>::empty(),
            Self::spec_empty().backing() is None,
    {
    }

    /// Where in its store the view begins. The view shows the bytes of its
    /// store from there on; without a store it shows nothing.
    pub fn offset(&self) -> (at: usize)
        ensures
            at == self.spec_offset(),
            match self.backing() {
                Some(store) => {
                    &&& at + self@.len() <= store@.len()
                    &&& self@ == store@.subrange(at as int, at + self@.len())
                },
                None => self@ == Seq::<u8>::empty() && at == 0,
            },
    {
        proof {
            use_type_invariant(self);
        }
        self.offset
    }

    /// The view of no bytes, with no store behind it.
    pub fn empty() -> (b: Bytes)
        ensures
            b == Self::spec_empty(),
            b@ == Seq::<u8>::empty(),
            b.backing() is None,
    {
        Bytes { buf: None, offset: 0, len: 0 }
    }

    /// The view of a whole store.
    pub fn from_obj(obj: BufEnum) -> (b: Bytes)
        ensures
            b@ == obj@,
            b.backing() == Some(obj),
            b.spec_offset() == 0,
    {
        let len = obj.len();
        let b = Bytes { offset: 0, len, buf: Some(obj) };
        assert(b@ =~= obj@);
        b
    }

    pub fn len(&self) -> (n: usize)
        ensures
            n == self@.len(),
    {
        proof {
            use_type_invariant(self);
        }
        self.len
    }

    pub fn is_empty(&self) -> (e: bool)
        ensures
            e == (self@.len() == 0),
    {
        proof {
            use_type_invariant(self);
        }
        self.len == 0
    }

    /// The bytes in view.
    pub fn as_slice(&self) -> (s: &[u8])
        ensures
            s@ == self@,
    {
        proof {
            use_type_invariant(self);
        }
        match &self.buf {
            None => {
                let nothing: &[u8] = &[];
                assert(nothing@ =~= self@);
                nothing
            },
            Some(buf) => {
                let all = buf.as_slice();
                let end: usize = all.len();
                &all[self.offset..self.offset + self.len]
            },
        }
    }

    /// The two views that a cut at `ix` gives.
    pub closed spec fn spec_split(self, ix: usize) -> (Bytes, Bytes) {
        if ix == self.len {
            (self, Bytes::spec_empty())
        } else {
            (
                Bytes { buf: self.buf, offset: self.offset, len: ix },
                Bytes {
                    buf: self.buf,
                    offset: (self.offset + ix) as usize,
                    len: (self.len - ix) as usize,
                },
            )
        }
    }

    /// Whether the view lies within its store. Every view that a program
    /// holds does.
    pub closed spec fn wf(&self) -> bool {
        self.inv() && self.offset + self.len <= usize::MAX
    }

    /// The parts of a view that is cut at `ix` show its first `ix` bytes and
    /// the rest.
    pub proof fn lemma_spec_split(self, ix: usize)
        requires
            self.wf(),
            ix <= self@.len(),
        ensures
            self.spec_split(ix).0.wf(),
            self.spec_split(ix).1.wf(),
            self.spec_split(ix).0@ == self@.take(ix as int),
            self.spec_split(ix).1@ == self@.skip(ix as int),
    {
        let parts = self.spec_split(ix);
        assert(parts.0@ =~= self@.take(ix as int));
        assert(parts.1@ =~= self@.skip(ix as int));
    }

    /// Cuts the view in two at `ix`: the first `ix` bytes and the rest. Both
    /// parts look into the store of the whole.
    pub fn split(self, ix: usize) -> (parts: (Bytes, Bytes))
        requires
            ix <= self@.len(),
        ensures
            parts == self.spec_split(ix),
            parts.0@ == self@.take(ix as int),
            parts.1@ == self@.skip(ix as int),
            parts.0@ + parts.1@ == self@,
            parts.0.backing() == self.backing(),
            ix < self@.len() ==> parts.1.backing() == self.backing(),
            ix == self@.len() ==> parts.1.backing() is None,
            parts.0.spec_offset() == self.spec_offset(),
            ix < self@.len() ==> parts.1.spec_offset() == self.spec_offset() + ix,
            ix == self@.len() ==> parts.1.spec_offset() == 0,
    {
        proof {
            use_type_invariant(&self);
        }
        if ix == self.len {
            let rest = Bytes::empty();
            assert(self@.take(ix as int) =~= self@);
            assert(rest@ =~= self@.skip(ix as int));
            assert(self@ + rest@ =~= self@);
            return (self, rest);
        }
        let buf = self.buf.unwrap();
        let whole: usize = buf.len();
        let prefix = Bytes { buf: Some(buf.clone()), offset: self.offset, len: ix };
        let suffix = Bytes { buf: Some(buf), offset: self.offset + ix, len: self.len - ix };
        assert(prefix@ =~= self@.take(ix as int));
        assert(suffix@ =~= self@.skip(ix as int));
        assert(prefix@ + suffix@ =~= self@);
        (prefix, suffix)
    }

    /// Gives up the view for its store, where no other view shares it.
    pub fn take_buffer(self) -> (store: Option<BufEnum>)
        ensures
            store matches Some(b) ==> self.backing() == Some(b),
            self.backing() is None ==> store is None,
    {
        match self.buf {
            None => None,
            Some(buf) => buf.into_unique(),
        }
    }

    /// Gives up the view for its store and its place in it, shared or not.
    pub fn take_buffer_unsafe(self) -> (parts: (BufEnum, usize, usize))
        requires
            self.backing() is Some,
        ensures
            self.backing() == Some(parts.0),
            parts.1 == self.spec_offset(),
            parts.2 == self@.len(),
            parts.1 + parts.2 <= parts.0@.len(),
            self@ == parts.0@.subrange(parts.1 as int, parts.1 + parts.2),
    {
        proof {
            use_type_invariant(&self);
        }
        (self.buf.unwrap(), self.offset, self.len)
    }
}

impl Clone for Bytes {
    /// Another view of the same bytes in the same store; no byte is copied.
    fn clone(&self) -> (other: Bytes)
        ensures
            other == *self,
    {
        proof {
            use_type_invariant(self);
        }
        let buf = match &self.buf {
            None => None,
            Some(b) => Some(b.clone()),
        };
        Bytes { buf, offset: self.offset, len: self.len }
    }
}

/// Whether two slices hold the same bytes.
pub fn same_bytes(a: &[u8], b: &[u8]) -> (same: bool)
    ensures
        same == (a@ == b@),
{
    if a.len() != b.len() {
        return false;
    }
    let mut i: usize = 0;
    while i < a.len()
        invariant
            i <= a@.len(),
            a@.len() == b@.len(),
            forall|j: int| 0 <= j < i ==> a@[j] == b@[j],
        decreases a@.len() - i,
    {
        if a[i] != b[i] {
            return false;
        }
        i = i + 1;
    }
    assert(a@ =~= b@);
    true
}

impl PartialEq for Bytes {
    /// Two views are equal where they show the same bytes, whatever their
    /// stores.
    fn eq(&self, rhs: &Bytes) -> (same: bool) {
        same_bytes(self.as_slice(), rhs.as_slice())
    }
}

impl vstd::std_specs::cmp::PartialEqSpecImpl for Bytes {
    open spec fn obeys_eq_spec() -> bool {
        true
    }

    open spec fn eq_spec(&self, rhs: &Bytes) -> bool {
        self@ == rhs@
    }
}

impl Eq for Bytes {

}

/// A buffer with a single owner, which may still be written.
#[derive(Debug)]
pub struct BytesMut {
    buf: Vec<u8>,
}

impl View for BytesMut {
    type V = Seq<u8>;

    closed spec fn view(&self) -> Seq<u8> {
        self.buf@
    }
}

impl BytesMut {
    /// Takes a store over for writing. Nothing comes back where the store is
    /// still shared with a view.
    pub fn from_buf(buf: Rc<Vec<u8>>) -> (owned: Option<BytesMut>)
        ensures
            owned matches Some(b) ==> b@ == buf@,
    {
        match sole_bytes(Rc::try_unwrap(buf)) {
            Some(bytes) => Some(BytesMut { buf: bytes }),
            None => None,
        }
    }

    /// A fresh buffer of `capacity` zero bytes.
    pub fn zeroed(capacity: usize) -> (b: BytesMut)
        requires
            capacity > 0,
        ensures
            b@ == Seq::new(capacity as nat, |i: int| 0u8),
    {
        let buf = vec![0u8; capacity];
        assert(buf@ =~= Seq::new(capacity as nat, |i: int| 0u8));
        BytesMut { buf }
    }

    /// A fresh buffer that holds a copy of `src`.
    pub fn from_slice(src: &[u8]) -> (b: BytesMut)
        requires
            src@.len() > 0,
        ensures
            b@ == src@,
    {
        let mut buf: Vec<u8> = Vec::new();
        buf.extend_from_slice(src);
        assert(buf@ =~= src@);
        BytesMut { buf }
    }

    pub fn len(&self) -> (n: usize)
        ensures
            n == self@.len(),
    {
        self.buf.len()
    }

    pub fn as_slice(&self) -> (s: &[u8])
        ensures
            s@ == self@,
    {
        self.buf.as_slice()
    }

    /// Writes one byte.
    pub fn set(&mut self, i: usize, value: u8)
        requires
            i < old(self)@.len(),
        ensures
            final(self)@ == old(self)@.update(i as int, value),
    {
        self.buf[i] = value;
    }

    /// Writes `src` over the bytes from `pos` on.
    pub fn write_at(&mut self, pos: usize, src: &[u8])
        requires
            pos + src@.len() <= old(self)@.len(),
        ensures
            final(self)@ == old(self)@.take(pos as int) + src@ + old(self)@.skip(
                pos + src@.len(),
            ),
    {
        let total: usize = self.buf.len();
        let mut i: usize = 0;
        while i < src.len()
            invariant
                i <= src@.len(),
                pos + src@.len() <= total,
                total == old(self)@.len(),
                self@.len() == old(self)@.len(),
                forall|j: int| 0 <= j < i ==> self@[pos + j] == src@[j],
                forall|j: int|
                    0 <= j < self@.len() && !(pos <= j < pos + i) ==> self@[j] == old(self)@[j],
            decreases src@.len() - i,
        {
            self.buf[pos + i] = src[i];
            i = i + 1;
        }
        assert(self@ =~= old(self)@.take(pos as int) + src@ + old(self)@.skip(pos + src@.len()));
    }

    /// Ends writing: the buffer becomes a view that can be shared.
    pub fn freeze(self) -> (b: Bytes)
        ensures
            b@ == self@,
            b.backing() == Some(BufEnum::Rust(Rc::new(self.spec_store()))),
            b.spec_offset() == 0,
    {
        Bytes::from_obj(BufEnum::Rust(Rc::new(self.buf)))
    }

    /// The store that the buffer owns.
    pub closed spec fn spec_store(&self) -> Vec<u8> {
        self.buf
    }
}

impl PartialEq for BytesMut {
    fn eq(&self, rhs: &BytesMut) -> (same: bool) {
        same_bytes(self.as_slice(), rhs.as_slice())
    }
}

impl vstd::std_specs::cmp::PartialEqSpecImpl for BytesMut {
    open spec fn obeys_eq_spec() -> bool {
        true
    }

    open spec fn eq_spec(&self, rhs: &BytesMut) -> bool {
        self@ == rhs@
    }
}

impl Eq for BytesMut {

}

/// The name of a suspended task: what must be resumed when the event it
/// waits for has come.
#[derive(Clone, Copy, Debug, PartialEq, Eq, Structural)]
pub struct Waker {
    pub key: u64,
}

impl Waker {
    pub fn new(key: u64) -> (w: Waker)
        ensures
            w.key == key,
    {
        Waker { key }
    }

    /// Whether waking `other` resumes the task that this waker resumes.
    pub fn will_wake(&self, other: &Waker) -> (same: bool)
        ensures
            same == (self.key == other.key),
    {
        self.key == other.key
    }
}

/// A slot in which a task leaves its waker for whoever produces the event.
pub struct SharedWaker {
    slot: Option<Waker>,
}

impl View for SharedWaker {
    type V = Option<Waker>;

    closed spec fn view(&self) -> Option<Waker> {
        self.slot
    }
}

impl SharedWaker {
    /// An empty slot.
    pub fn new() -> (s: SharedWaker)
        ensures
            s@ is None,
    {
        SharedWaker { slot: None }
    }

    /// Leaves `waker` in the slot, in place of what was there.
    pub fn register(&mut self, waker: &Waker)
        ensures
            final(self)@ == Some(*waker),
    {
        if let Some(existing_waker) = &self.slot {
            if waker.will_wake(existing_waker) {
                return ;
            }
        }
        self.slot = Some(*waker);
    }

    /// Empties the slot and hands out the waker that was in it, to be
    /// resumed by the caller.
    pub fn wake(&mut self) -> (woken: Option<Waker>)
        ensures
            woken == old(self)@,
            final(self)@ is None,
    {
        self.slot.take()
    }
}

/// A 64-bit word of notification bits with the operations of an atomic,
/// for use on one thread.
pub struct WakerU64 {
    val: u64,
}

impl View for WakerU64 {
    type V = u64;

    closed spec fn view(&self) -> u64 {
        self.val
    }
}

impl WakerU64 {
    pub fn new(val: u64) -> (w: WakerU64)
        ensures
            w@ == val,
    {
        WakerU64 { val }
    }

    pub fn fetch_or(&mut self, val: u64)
        ensures
            final(self)@ == old(self)@ | val,
    {
        self.val = self.val | val;
    }

    pub fn fetch_and(&mut self, val: u64)
        ensures
            final(self)@ == old(self)@ & val,
    {
        self.val = self.val & val;
    }

    pub fn fetch_add(&mut self, val: u64) -> (before: u64)
        requires
            old(self)@ + val <= u64::MAX,
        ensures
            before == old(self)@,
            final(self)@ == old(self)@ + val,
    {
        let before = self.val;
        self.val = self.val + val;
        before
    }

    pub fn fetch_sub(&mut self, val: u64) -> (before: u64)
        requires
            val <= old(self)@,
        ensures
            before == old(self)@,
            final(self)@ == old(self)@ - val,
    {
        let before = self.val;
        self.val = self.val - val;
        before
    }

    pub fn load(&self) -> (val: u64)
        ensures
            val == self@,
    {
        self.val
    }

    pub fn swap(&mut self, val: u64) -> (before: u64)
        ensures
            before == old(self)@,
            final(self)@ == val,
    {
        let before = self.val;
        self.val = val;
        before
    }
}

/// What an attempt to take a byte store out of its shared handle has come
/// to: the bytes where the handle was the only one, nothing where another
/// handle is still alive. Whether a handle is the only one is the count that
/// `Rc` keeps beside the bytes; no value of the program holds it, so the
/// functions that make the attempt can promise a store to no caller, and
/// this function says what they return for each outcome of it.
pub fn sole_bytes(unwrapped: Result<Vec<u8>, Rc<Vec<u8>>>) -> (bytes: Option<Vec<u8>>)
    ensures
        bytes == (match unwrapped {
            Ok(b) => Some(b),
            Err(_) => None::<Vec<u8>>,
        }),
{
    match unwrapped {
        Ok(b) => Some(b),
        Err(_) => None,
    }
}

} // verus!
