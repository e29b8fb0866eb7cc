//! The UDP peer: sockets without connections, and for each bound endpoint a
//! queue of the datagrams that wait to be read.

use crate::collections::Table;
use crate::fail::Fail;
use crate::file_table::{lowest_vacant, sockets_open_as, File, FileDescriptor, FileTable};
use crate::operations::{OperationResult, ResultFuture};
use crate::protocols::ip::Port;
use crate::protocols::ipv4::Endpoint;
use crate::operations::Poll;
use crate::protocols::tcp::segment::{read_u16, u16_from_be, u16_to_be, write_u16};
use crate::runtime::{woken_after, BufferPool, PacketSerialize, WakeQueue};
use crate::sync::{Bytes, Waker};
use std::collections::VecDeque;
use vstd::prelude::*;

verus! {

/// The datagrams that wait at a bound endpoint, each with the endpoint it
/// came from, and the reader that waits for the next one.
pub struct Listener {
    buf: VecDeque<(Option<Endpoint>, Bytes)>,
    waker: Option<Waker>,
}

/// A listener as plain values.
pub struct ListenerView {
    pub buf: Seq<(Option<Endpoint>, Bytes)>,
    pub waker: Option<Waker>,
}

impl View for Listener {
    type V = ListenerView;

    closed spec fn view(&self) -> ListenerView {
        ListenerView { buf: self.buf@, waker: self.waker }
    }
}

/// What a UDP socket knows of itself.
#[derive(Clone, Copy, Debug, PartialEq, Eq, Structural)]
pub struct Socket {
    /// The endpoint that the socket is bound to.
    pub local: Option<Endpoint>,
    /// The endpoint that the socket sends to by default.
    pub remote: Option<Endpoint>,
}

/// A datagram on its way out: where it comes from, if the socket is bound,
/// where it goes to, and what it carries.
#[derive(Debug)]
pub struct OutgoingReq {
    pub local: Option<Endpoint>,
    pub remote: Endpoint,
    pub payload: Bytes,
}

/// The UDP peer as plain values.
pub struct UdpView {
    /// The open sockets, by descriptor.
    pub sockets: Map<u128, Socket>,
    /// The listeners, by the key of the endpoint they are bound to.
    pub bound: Map<u128, ListenerView>,
    /// The datagrams that wait to be transmitted, oldest first.
    pub outgoing: Seq<OutgoingReq>,
}

/// The views of the payloads that wait at a listener, oldest first.
pub open spec fn payloads(buf: Seq<(Option<Endpoint>, Bytes)>) -> Seq<Bytes> {
    Seq::new(buf.len(), |i: int| buf[i].1)
}

impl UdpView {
    /// The endpoint that the socket `fd` is bound to, where a listener
    /// waits there.
    pub open spec fn listener_of(self, fd: FileDescriptor) -> Option<Endpoint> {
        if self.sockets.contains_key(fd as u128) {
            match self.sockets[fd as u128].local {
                Some(local) => if self.bound.contains_key(local.spec_key()) {
                    Some(local)
                } else {
                    None
                },
                None => None,
            }
        } else {
            None
        }
    }

    /// Whether `bind` takes the socket `fd` to the endpoint `addr`: the
    /// socket is open and unbound, and no other socket is bound there.
    pub open spec fn can_bind(self, fd: FileDescriptor, addr: Endpoint) -> bool {
        &&& self.sockets.contains_key(fd as u128)
        &&& self.sockets[fd as u128].local is None
        &&& !self.bound.contains_key(addr.spec_key())
    }

    /// The outcome of `bind`.
    pub open spec fn bind_result(self, fd: FileDescriptor, addr: Endpoint) -> Result<(), Fail> {
        if !self.sockets.contains_key(fd as u128) || self.sockets[fd as u128].local is Some {
            Err(Fail::Malformed { details: "Invalid file descriptor on bind" })
        } else if self.bound.contains_key(addr.spec_key()) {
            Err(Fail::Malformed { details: "Could not bind to address" })
        } else {
            Ok(())
        }
    }

    /// The peer after `bind`.
    pub open spec fn bind(self, fd: FileDescriptor, addr: Endpoint) -> UdpView {
        if self.can_bind(fd, addr) {
            UdpView {
                sockets: self.sockets.insert(
                    fd as u128,
                    Socket { local: Some(addr), ..self.sockets[fd as u128] },
                ),
                bound: self.bound.insert(
                    addr.spec_key(),
                    ListenerView { buf: Seq::empty(), waker: None },
                ),
                ..self
            }
        } else {
            self
        }
    }

    /// Whether `connect` gives the socket `fd` a default destination: the
    /// socket is open and bound.
    pub open spec fn can_connect(self, fd: FileDescriptor) -> bool {
        self.sockets.contains_key(fd as u128) && self.sockets[fd as u128].local is Some
    }

    /// The peer after `connect`.
    pub open spec fn connect(self, fd: FileDescriptor, addr: Endpoint) -> UdpView {
        if self.can_connect(fd) {
            UdpView {
                sockets: self.sockets.insert(
                    fd as u128,
                    Socket { remote: Some(addr), ..self.sockets[fd as u128] },
                ),
                ..self
            }
        } else {
            self
        }
    }

    /// The peer after a datagram from `remote` came in for `local`.
    pub open spec fn receive(
        self,
        local: Endpoint,
        remote: Option<Endpoint>,
        buf: Bytes,
    ) -> UdpView {
        if self.bound.contains_key(local.spec_key()) {
            let listener = self.bound[local.spec_key()];
            UdpView {
                bound: self.bound.insert(
                    local.spec_key(),
                    ListenerView { buf: listener.buf.push((remote, buf)), waker: None },
                ),
                ..self
            }
        } else {
            self
        }
    }

    /// The datagram that `push` sends from the socket `fd`, where the
    /// socket is bound and has a default destination.
    pub open spec fn push_request(self, fd: FileDescriptor, buf: Bytes) -> Option<OutgoingReq> {
        if self.sockets.contains_key(fd as u128) {
            let socket = self.sockets[fd as u128];
            match (socket.local, socket.remote) {
                (Some(local), Some(remote)) => Some(
                    OutgoingReq { local: Some(local), remote, payload: buf },
                ),
                _ => None,
            }
        } else {
            None
        }
    }

    /// The datagram that `pushto` sends from the socket `fd` to `to`, where
    /// the socket is open.
    pub open spec fn pushto_request(self, fd: FileDescriptor, buf: Bytes, to: Endpoint) -> Option<
        OutgoingReq,
    > {
        if self.sockets.contains_key(fd as u128) {
            Some(OutgoingReq { local: self.sockets[fd as u128].local, remote: to, payload: buf })
        } else {
            None
        }
    }

    /// The peer after `request`, if any, joined the datagrams that wait to
    /// be transmitted.
    pub open spec fn send(self, request: Option<OutgoingReq>) -> UdpView {
        match request {
            Some(r) => UdpView { outgoing: self.outgoing.push(r), ..self },
            None => self,
        }
    }

    /// The peer after the socket `fd` was closed: the socket is gone, and
    /// with it the listener at the endpoint it was bound to.
    pub open spec fn close(self, fd: FileDescriptor) -> UdpView {
        if self.sockets.contains_key(fd as u128) {
            UdpView {
                sockets: self.sockets.remove(fd as u128),
                bound: match self.sockets[fd as u128].local {
                    Some(local) => self.bound.remove(local.spec_key()),
                    None => self.bound,
                },
                ..self
            }
        } else {
            self
        }
    }

    /// The payloads that wait, undelivered, at the endpoint that the socket
    /// `fd` is bound to.
    pub open spec fn undelivered(self, fd: FileDescriptor) -> Seq<Bytes> {
        match self.listener_of(fd) {
            Some(local) => payloads(self.bound[local.spec_key()].buf),
            None => Seq::empty(),
        }
    }

    /// What a poll for the next datagram at `local` finds.
    pub open spec fn poll_result(self, local: Endpoint) -> Option<(Option<Endpoint>, Bytes)> {
        if self.bound.contains_key(local.spec_key()) && self.bound[local.spec_key()].buf.len()
            > 0 {
            Some(self.bound[local.spec_key()].buf[0])
        } else {
            None
        }
    }

    /// What a poll for the next datagram at `local` hands out.
    pub open spec fn poll_pop_result(self, local: Endpoint) -> Poll<
        Result<(Option<Endpoint>, Bytes), Fail>,
    > {
        if !self.bound.contains_key(local.spec_key()) {
            Poll::Ready(Err(Fail::Malformed { details: "Invalid file descriptor" }))
        } else {
            match self.poll_result(local) {
                Some(datagram) => Poll::Ready(Ok(datagram)),
                None => Poll::Pending,
            }
        }
    }

    /// The peer after a poll by `ctx` for the next datagram at `local`: the
    /// datagram at the front is gone, or `ctx` waits for one.
    pub open spec fn poll(self, local: Endpoint, ctx: Waker) -> UdpView {
        if self.bound.contains_key(local.spec_key()) {
            let listener = self.bound[local.spec_key()];
            let polled = if listener.buf.len() > 0 {
                ListenerView { buf: listener.buf.skip(1), ..listener }
            } else {
                ListenerView { waker: Some(ctx), ..listener }
            };
            UdpView { bound: self.bound.insert(local.spec_key(), polled), ..self }
        } else {
            self
        }
    }
}

/// The connectionless sockets of the stack.
pub struct UdpPeer {
    sockets: Table<Socket>,
    bound: Table<Listener>,
    outgoing: VecDeque<OutgoingReq>,
}

impl View for UdpPeer {
    type V = UdpView;

    closed spec fn view(&self) -> UdpView {
        UdpView {
            sockets: self.sockets@,
            bound: Map::new(
                |key: u128| self.bound@.contains_key(key),
                |key: u128| self.bound@[key]@,
            ),
            outgoing: self.outgoing@,
        }
    }
}

/// A pending read of the next datagram at a bound endpoint.
pub struct PopFuture {
    pub fd: FileDescriptor,
    /// The endpoint whose listener is read, or why there is none to read.
    pub listener: Result<Endpoint, Fail>,
}

impl UdpPeer {
    /// Whether the peer keeps its invariant.
    pub closed spec fn wf(&self) -> bool {
        self.sockets.wf() && self.bound.wf()
    }

    /// A peer with no socket.
    pub fn new() -> (peer: UdpPeer)
        ensures
            peer.wf(),
            peer@ == (UdpView {
                sockets: Map::empty(),
                bound: Map::empty(),
                outgoing: Seq::empty(),
            }),
    {
        let peer = UdpPeer {
            sockets: Table::new(),
            bound: Table::new(),
            outgoing: VecDeque::new(),
        };
        assert(peer@.bound =~= Map::<u128, ListenerView>::empty());
        peer
    }

    /// UDP has no connections to accept.
    pub fn accept(&self) -> (refusal: Fail)
        ensures
            refusal == (Fail::Malformed { details: "Operation not supported" }),
    {
        Fail::Malformed { details: "Operation not supported" }
    }

    /// Opens a socket: a descriptor of `file_table` that was not open, with
    /// no endpoint bound to it.
    pub fn socket(&mut self, file_table: &mut FileTable) -> (opened: Result<FileDescriptor, Fail>)
        requires
            old(self).wf(),
            old(file_table).wf(),
            sockets_open_as(old(self)@.sockets, old(file_table)@, File::UdpSocket),
        ensures
            final(self).wf(),
            final(file_table).wf(),
            sockets_open_as(final(self)@.sockets, final(file_table)@, File::UdpSocket),
            match opened {
                Ok(fd) => {
                    &&& !old(file_table).full()
                    &&& fd == lowest_vacant(old(file_table)@)
                    &&& !old(file_table)@.contains_key(fd)
                    &&& !old(self)@.sockets.contains_key(fd as u128)
                    &&& final(file_table)@ == old(file_table)@.insert(fd, File::UdpSocket)
                    &&& final(self)@ == (UdpView {
                        sockets: old(self)@.sockets.insert(
                            fd as u128,
                            Socket { local: None, remote: None },
                        ),
                        ..old(self)@
                    })
                },
                Err(e) => {
                    &&& e == (Fail::ResourceExhausted { details: "Out of file descriptors" })
                    &&& old(file_table).full()
                    &&& final(file_table)@ == old(file_table)@
                    &&& final(self)@ == old(self)@
                },
            },
    {
        let fd = match file_table.alloc_fd(File::UdpSocket) {
            Ok(fd) => fd,
            Err(e) => {
                return Err(e);
            },
        };
        let socket = Socket { local: None, remote: None };
        let _ = self.sockets.insert(fd as u128, socket);
        assert(self@.bound =~= old(self)@.bound);
        Ok(fd)
    }

    /// Binds the socket `fd` to the endpoint `addr` and sets up the queue
    /// of the datagrams that come in there.
    pub fn bind(&mut self, fd: FileDescriptor, addr: Endpoint) -> (done: Result<(), Fail>)
        requires
            old(self).wf(),
        ensures
            final(self).wf(),
            done == old(self)@.bind_result(fd, addr),
            final(self)@ == old(self)@.bind(fd, addr),
            done is Ok <==> old(self)@.can_bind(fd, addr),
    {
        let socket = match self.sockets.get(fd as u128) {
            Some(socket) => *socket,
            None => {
                return Err(Fail::Malformed { details: "Invalid file descriptor on bind" });
            },
        };
        if socket.local.is_some() {
            return Err(Fail::Malformed { details: "Invalid file descriptor on bind" });
        }
        if self.bound.contains_key(addr.key()) {
            return Err(Fail::Malformed { details: "Could not bind to address" });
        }
        let _ = self.sockets.insert(fd as u128, Socket { local: Some(addr), remote: socket.remote });
        let listener = Listener { buf: VecDeque::new(), waker: None };
        let _ = self.bound.insert(addr.key(), listener);
        assert(self@.bound =~= old(self)@.bind(fd, addr).bound);
        Ok(())
    }

    /// Gives the socket `fd` the default destination `addr`.
    pub fn connect(&mut self, fd: FileDescriptor, addr: Endpoint) -> (done: Result<(), Fail>)
        requires
            old(self).wf(),
        ensures
            final(self).wf(),
            final(self)@ == old(self)@.connect(fd, addr),
            done == (if old(self)@.can_connect(fd) {
                Ok(())
            } else {
                Err(Fail::Malformed { details: "Please bind the socket before connecting" })
            }),
    {
        let socket = match self.sockets.get(fd as u128) {
            Some(socket) => *socket,
            None => {
                return Err(
                    Fail::Malformed { details: "Please bind the socket before connecting" },
                );
            },
        };
        if socket.local.is_none() {
            return Err(Fail::Malformed { details: "Please bind the socket before connecting" });
        }
        let _ = self.sockets.insert(fd as u128, Socket { local: socket.local, remote: Some(addr) });
        assert(self@.bound =~= old(self)@.bound);
        Ok(())
    }

    /// Takes in a datagram that came from `remote` for the endpoint `local`:
    /// it joins the queue there, and the reader that waits there is woken.
    pub fn receive(
        &mut self,
        local: Endpoint,
        remote: Option<Endpoint>,
        buf: Bytes,
        wakes: &mut WakeQueue,
    ) -> (done: Result<(), Fail>)
        requires
            old(self).wf(),
        ensures
            final(self).wf(),
            final(self)@ == old(self)@.receive(local, remote, buf),
            final(self)@.sockets == old(self)@.sockets,
            old(self)@.bound.contains_key(local.spec_key()) ==> done == Ok::<(), Fail>(())
                && final(wakes)@ == woken_after(
                old(wakes)@,
                old(self)@.bound[local.spec_key()].waker,
            ),
            !old(self)@.bound.contains_key(local.spec_key()) ==> done == Err::<(), Fail>(
                Fail::Malformed { details: "Port not bound" },
            ) && final(wakes)@ == old(wakes)@,
    {
        let mut listener = match self.bound.remove(local.key()) {
            Some(listener) => listener,
            None => {
                assert(self@.bound =~= old(self)@.bound);
                return Err(Fail::Malformed { details: "Port not bound" });
            },
        };
        listener.buf.push_back((remote, buf));
        wakes.wake_if(listener.waker.take());
        let _ = self.bound.insert(local.key(), listener);
        assert(self@.bound =~= old(self)@.receive(local, remote, buf).bound);
        Ok(())
    }

    /// Sends `buf` from the socket `fd` to its default destination.
    pub fn push(&mut self, fd: FileDescriptor, buf: Bytes) -> (done: Result<(), Fail>)
        requires
            old(self).wf(),
        ensures
            final(self).wf(),
            final(self)@ == old(self)@.send(old(self)@.push_request(fd, buf)),
            done == (if old(self)@.push_request(fd, buf) is Some {
                Ok(())
            } else {
                Err(Fail::Malformed { details: "Invalid file descriptor on push" })
            }),
    {
        let socket = match self.sockets.get(fd as u128) {
            Some(socket) => *socket,
            None => {
                return Err(Fail::Malformed { details: "Invalid file descriptor on push" });
            },
        };
        match (socket.local, socket.remote) {
            (Some(local), Some(remote)) => {
                self.outgoing.push_back(OutgoingReq { local: Some(local), remote, payload: buf });
                assert(self@.bound =~= old(self)@.bound);
                Ok(())
            },
            _ => Err(Fail::Malformed { details: "Invalid file descriptor on push" }),
        }
    }

    /// Sends `buf` from the socket `fd` to the endpoint `to`.
    pub fn pushto(&mut self, fd: FileDescriptor, buf: Bytes, to: Endpoint) -> (done: Result<
        (),
        Fail,
    >)
        requires
            old(self).wf(),
        ensures
            final(self).wf(),
            final(self)@ == old(self)@.send(old(self)@.pushto_request(fd, buf, to)),
            done == (if old(self)@.pushto_request(fd, buf, to) is Some {
                Ok(())
            } else {
                Err(Fail::Malformed { details: "Invalid file descriptor on push" })
            }),
    {
        let socket = match self.sockets.get(fd as u128) {
            Some(socket) => *socket,
            None => {
                return Err(Fail::Malformed { details: "Invalid file descriptor on push" });
            },
        };
        self.outgoing.push_back(OutgoingReq { local: socket.local, remote: to, payload: buf });
        assert(self@.bound =~= old(self)@.bound);
        Ok(())
    }

    /// Hands out the datagram that has waited longest to be transmitted.
    pub fn pop_outgoing(&mut self) -> (request: Option<OutgoingReq>)
        requires
            old(self).wf(),
        ensures
            final(self).wf(),
            final(self)@.sockets == old(self)@.sockets,
            final(self)@.bound == old(self)@.bound,
            match request {
                Some(r) => old(self)@.outgoing.len() > 0 && r == old(self)@.outgoing[0]
                    && final(self)@.outgoing == old(self)@.outgoing.skip(1),
                None => old(self)@.outgoing.len() == 0 && final(self)@.outgoing == old(
                    self,
                )@.outgoing,
            },
    {
        let request = self.outgoing.pop_front();
        assert(self@.bound =~= old(self)@.bound);
        assert(request is Some ==> self@.outgoing =~= old(self)@.outgoing.skip(1));
        request
    }

    /// Begins a read of the next datagram at the endpoint that the socket
    /// `fd` is bound to.
    pub fn pop(&self, fd: FileDescriptor) -> (future: PopFuture)
        requires
            self.wf(),
        ensures
            future.fd == fd,
            future.listener == (match self@.listener_of(fd) {
                Some(local) => Ok(local),
                None => Err(Fail::Malformed { details: "Invalid file descriptor" }),
            }),
    {
        let listener = match self.sockets.get(fd as u128) {
            Some(socket) => match socket.local {
                Some(local) => if self.bound.contains_key(local.key()) {
                    Ok(local)
                } else {
                    Err(Fail::Malformed { details: "Invalid file descriptor" })
                },
                None => Err(Fail::Malformed { details: "Invalid file descriptor" }),
            },
            None => Err(Fail::Malformed { details: "Invalid file descriptor" }),
        };
        PopFuture { listener, fd }
    }

    /// Takes the datagram at the front of the queue at `local`, or leaves
    /// `ctx` there to be woken when one comes in.
    pub fn poll_pop(&mut self, local: Endpoint, ctx: &Waker) -> (polled: Poll<
        Result<(Option<Endpoint>, Bytes), Fail>,
    >)
        requires
            old(self).wf(),
        ensures
            final(self).wf(),
            final(self)@ == old(self)@.poll(local, *ctx),
            final(self)@.sockets == old(self)@.sockets,
            polled == old(self)@.poll_pop_result(local),
    {
        let mut listener = match self.bound.remove(local.key()) {
            Some(listener) => listener,
            None => {
                assert(self@.bound =~= old(self)@.bound);
                return Poll::Ready(Err(Fail::Malformed { details: "Invalid file descriptor" }));
            },
        };
        let polled = match listener.buf.pop_front() {
            Some(datagram) => Poll::Ready(Ok(datagram)),
            None => {
                listener.waker = Some(*ctx);
                Poll::Pending
            },
        };
        assert(listener@.buf =~= if old(self)@.bound[local.spec_key()].buf.len() > 0 {
            old(self)@.bound[local.spec_key()].buf.skip(1)
        } else {
            old(self)@.bound[local.spec_key()].buf
        });
        let _ = self.bound.insert(local.key(), listener);
        assert(self@.bound =~= old(self)@.poll(local, *ctx).bound);
        polled
    }

    /// Closes the socket `fd`: its descriptor is freed, the listener at its
    /// endpoint is removed, and the datagrams that nobody read are donated
    /// to `pool`.
    pub fn close(
        &mut self,
        fd: FileDescriptor,
        file_table: &mut FileTable,
        pool: &mut BufferPool,
    ) -> (done:
        Result<(), Fail>)
        requires
            old(self).wf(),
            old(file_table).wf(),
        ensures
            final(self).wf(),
            final(file_table).wf(),
            final(self)@ == old(self)@.close(fd),
            sockets_open_as(old(self)@.sockets, old(file_table)@, File::UdpSocket)
                ==> sockets_open_as(final(self)@.sockets, final(file_table)@, File::UdpSocket),
            old(self)@.sockets.contains_key(fd as u128) ==> {
                &&& done == Ok::<(), Fail>(())
                &&& final(file_table)@ == old(file_table)@.remove(fd)
                &&& old(pool)@.donated_all(old(self)@.undelivered(fd), final(pool)@)
            },
            !old(self)@.sockets.contains_key(fd as u128) ==> {
                &&& done == Err::<(), Fail>(Fail::Malformed { details: "Invalid file descriptor" })
                &&& final(file_table)@ == old(file_table)@
                &&& final(pool)@ == old(pool)@
            },
    {
        let socket = match self.sockets.remove(fd as u128) {
            Some(s) => s,
            None => {
                assert(self@.bound =~= old(self)@.bound);
                assert(self@.sockets =~= old(self)@.sockets);
                return Err(Fail::Malformed { details: "Invalid file descriptor" });
            },
        };
        let listener = match socket.local {
            Some(local) => self.bound.remove(local.key()),
            None => None,
        };
        assert(self@.bound =~= old(self)@.close(fd).bound);
        let _ = file_table.free(fd);
        match listener {
            Some(listener) => {
                release_all(listener.buf, pool);
            },
            None => {},
        }
        Ok(())
    }
}

/// Donates the payloads of `queue` to `pool`, oldest first.
fn release_all(queue: VecDeque<(Option<Endpoint>, Bytes)>, pool: &mut BufferPool)
    ensures
        old(pool)@.donated_all(payloads(queue@), final(pool)@),
{
    let mut queue = queue;
    let ghost all = payloads(queue@);
    let ghost mut done: int = 0;
    assert(all.take(0) =~= Seq::<Bytes>::empty());
    loop
        invariant
            0 <= done <= all.len(),
            payloads(queue@) == all.skip(done),
            old(pool)@.donated_all(all.take(done), pool@),
        ensures
            done == all.len(),
            old(pool)@.donated_all(all.take(done), pool@),
        decreases queue@.len(),
    {
        let ghost before = queue@;
        let ghost mid = pool@;
        match queue.pop_front() {
            None => {
                assert(payloads(before).len() == 0);
                break ;
            },
            Some((_, payload)) => {
                pool.donate_buffer(payload);
                proof {
                    assert(payloads(before).len() == before.len());
                    assert(all.skip(done).len() == all.len() - done);
                    assert(payload == payloads(before)[0]);
                    assert(all.skip(done)[0] == all[done]);
                    assert(payload == all[done]);
                    assert(queue@ =~= before.skip(1));
                    assert forall|i: int| 0 <= i < queue@.len() implies payloads(queue@)[i]
                        == all.skip(done + 1)[i] by {
                        assert(payloads(queue@)[i] == before[i + 1].1);
                        assert(payloads(before)[i + 1] == before[i + 1].1);
                        assert(all.skip(done)[i + 1] == all[done + 1 + i]);
                    }
                    assert(all.take(done + 1).drop_last() =~= all.take(done));
                    assert(all.take(done + 1).last() == payload);
                    assert(all.take(done + 1).len() > 0);
                    assert(old(pool)@.donated_all(all.take(done + 1).drop_last(), mid));
                    assert(mid.donated(all.take(done + 1).last(), pool@));
                    assert(old(pool)@.donated_all(all.take(done + 1), pool@));
                    assert(payloads(queue@) =~= all.skip(done + 1));
                    done = done + 1;
                }
            },
        }
    }
    assert(all.take(all.len() as int) =~= all);
}

/// The size of the UDP header.
pub const UDP_HEADER_SIZE: usize = 8;

/// The length field of a datagram that carries `payload_len` bytes: header
/// and payload together, or zero where that is more than the field can
/// say.
pub open spec fn udp_length(payload_len: nat) -> u16 {
    if UDP_HEADER_SIZE + payload_len <= 0xffff {
        (UDP_HEADER_SIZE + payload_len) as u16
    } else {
        0
    }
}

/// The port number that stands for `endpoint` in a header: zero for none.
pub open spec fn port_field(endpoint: Option<Endpoint>) -> u16 {
    match endpoint {
        Some(e) => e.port@,
        None => 0,
    }
}

impl OutgoingReq {
    /// The eight bytes of the datagram's header: the two ports, the length,
    /// and the checksum left to the layer below.
    pub open spec fn header_bytes(&self) -> Seq<u8> {
        u16_to_be(port_field(self.local)) + u16_to_be(self.remote.port@) + u16_to_be(
            udp_length(self.payload@.len()),
        ) + seq![0u8, 0u8]
    }
}

impl PacketSerialize for OutgoingReq {
    open spec fn wire(&self) -> Seq<u8> {
        self.header_bytes() + self.payload@
    }

    fn compute_size(&self) -> (size: usize) {
        UDP_HEADER_SIZE + self.payload.len()
    }

    fn serialize(&self, buf: &mut [u8]) {
        let (head, tail) = buf.split_at_mut(8);
        let src_port: u16 = match self.local {
            Some(local) => local.port.value(),
            None => 0,
        };
        let length: u16 = if self.payload.len() <= 0xffff - UDP_HEADER_SIZE {
            (UDP_HEADER_SIZE + self.payload.len()) as u16
        } else {
            0
        };
        let (src, rest) = head.split_at_mut(2);
        write_u16(src, src_port);
        let (dst, rest) = rest.split_at_mut(2);
        write_u16(dst, self.remote.port.value());
        let (len, sum) = rest.split_at_mut(2);
        write_u16(len, length);
        write_u16(sum, 0);
        assert(head@ =~= self.header_bytes());
        let data = self.payload.as_slice();
        let mut i: usize = 0;
        while i < data.len()
            invariant
                i <= data@.len(),
                tail@.len() == data@.len(),
                forall|j: int| 0 <= j < i ==> tail@[j] == data@[j],
            decreases data@.len() - i,
        {
            tail[i] = data[i];
            i = i + 1;
        }
        assert(tail@ =~= self.payload@);
    }
}

/// A datagram that came in: where it came from, if it says so, the endpoint
/// it is for, and what it carries.
#[derive(Debug)]
pub struct Datagram {
    pub remote: Option<Endpoint>,
    pub local: Endpoint,
    pub payload: Bytes,
}

impl Datagram {
    /// Whether `parse` reads a datagram out of `bytes`: they hold a whole
    /// header, and the port that the datagram is for is not zero.
    pub open spec fn parses(bytes: Seq<u8>) -> bool {
        bytes.len() >= UDP_HEADER_SIZE && u16_from_be(bytes[2], bytes[3]) != 0
    }

    /// The datagram that `parse` reads out of `bytes`, sent from the address
    /// `src_addr` to the address `dst_addr`.
    pub open spec fn parsed(src_addr: u32, dst_addr: u32, bytes: Bytes) -> Datagram {
        Datagram {
            remote: if u16_from_be(bytes@[0], bytes@[1]) == 0 {
                None
            } else {
                Some(
                    Endpoint {
                        addr: src_addr,
                        port: Port::spec_from(u16_from_be(bytes@[0], bytes@[1])),
                    },
                )
            },
            local: Endpoint {
                addr: dst_addr,
                port: Port::spec_from(u16_from_be(bytes@[2], bytes@[3])),
            },
            payload: bytes.spec_split(UDP_HEADER_SIZE).1,
        }
    }

    /// Why `parse` reads no datagram out of `bytes`.
    pub open spec fn parse_error(bytes: Seq<u8>) -> Fail {
        if bytes.len() < UDP_HEADER_SIZE {
            Fail::Malformed { details: "UDP datagram too small" }
        } else {
            Fail::OutOfRange { details: "port number may not be zero" }
        }
    }

    /// Whether this datagram is what the bytes `bytes`, sent from the
    /// address `src_addr` to the address `dst_addr`, say.
    pub open spec fn says(&self, src_addr: u32, dst_addr: u32, bytes: Seq<u8>) -> bool {
        &&& port_field(self.remote) == u16_from_be(bytes[0], bytes[1])
        &&& self.remote matches Some(remote) ==> remote.addr == src_addr
        &&& self.local.addr == dst_addr
        &&& self.local.port@ == u16_from_be(bytes[2], bytes[3])
        &&& self.payload@ == bytes.skip(UDP_HEADER_SIZE as int)
    }

    /// Reads the datagram that `bytes` hold. The payload of the datagram is
    /// a view into the store of `bytes`: nothing is copied.
    pub fn parse(src_addr: u32, dst_addr: u32, bytes: Bytes) -> (parsed: Result<Datagram, Fail>)
        ensures
            match parsed {
                Ok(datagram) => Self::parses(bytes@) && datagram.says(src_addr, dst_addr, bytes@)
                    && datagram == Self::parsed(src_addr, dst_addr, bytes),
                Err(e) => !Self::parses(bytes@) && e == Self::parse_error(bytes@),
            },
    {
        proof {
            if bytes@.len() >= 8 {
                Port::lemma_spec_from(u16_from_be(bytes@[0], bytes@[1]));
                Port::lemma_spec_from(u16_from_be(bytes@[2], bytes@[3]));
            }
        }
        if bytes.len() < UDP_HEADER_SIZE {
            return Err(Fail::Malformed { details: "UDP datagram too small" });
        }
        let all = bytes.as_slice();
        let src_port = read_u16(&all[0..2]);
        let dst_port = read_u16(&all[2..4]);
        let local = match Port::try_from(dst_port) {
            Ok(port) => Endpoint::new(dst_addr, port),
            Err(e) => {
                return Err(e);
            },
        };
        let remote = match Port::try_from(src_port) {
            Ok(port) => Some(Endpoint::new(src_addr, port)),
            Err(_) => None,
        };
        let (_, payload) = bytes.split(UDP_HEADER_SIZE);
        Ok(Datagram { remote, local, payload })
    }
}

impl OutgoingReq {
    /// What `serialize` writes, `parse` reads back: the bytes of a datagram
    /// say where it comes from, where it goes to and what it carries.
    pub proof fn lemma_wire_says_datagram(&self, src_addr: u32, received: Datagram)
        requires
            self.remote.port@ != 0,
            self.local matches Some(local) ==> local.port@ != 0 && local.addr == src_addr,
            received.remote matches Some(remote) ==> remote.port@ != 0,
            received.says(src_addr, self.remote.addr, self.wire()),
        ensures
            Datagram::parses(self.wire()),
            received.remote == self.local,
            received.local == self.remote,
            received.payload@ == self.payload@,
    {
        crate::protocols::tcp::segment::lemma_u16_reads_as_written(port_field(self.local));
        crate::protocols::tcp::segment::lemma_u16_reads_as_written(self.remote.port@);
        assert(self.header_bytes().len() == 8);
        assert(self.wire().skip(8) =~= self.payload@);
        crate::protocols::ip::lemma_port_is_its_number(received.local.port, self.remote.port);
        match (received.remote, self.local) {
            (Some(a), Some(b)) => {
                crate::protocols::ip::lemma_port_is_its_number(a.port, b.port);
            },
            _ => {},
        }
    }
}

/// An operation on a UDP socket. All but the read of a datagram have their
/// outcome from the start.
pub enum UdpOperation {
    Accept(FileDescriptor, Fail),
    Connect(FileDescriptor, Result<(), Fail>),
    Push(FileDescriptor, Result<(), Fail>),
    Pop(ResultFuture<PopFuture, Result<(Option<Endpoint>, Bytes), Fail>>),
}

impl UdpOperation {
    /// Whether the operation has its outcome.
    pub open spec fn is_ready(self) -> bool {
        match self {
            UdpOperation::Pop(f) => f.done is Some,
            _ => true,
        }
    }

    /// The descriptor that the operation works on.
    pub open spec fn fd(self) -> FileDescriptor {
        match self {
            UdpOperation::Accept(fd, _) => fd,
            UdpOperation::Connect(fd, _) => fd,
            UdpOperation::Push(fd, _) => fd,
            UdpOperation::Pop(f) => f.future.fd,
        }
    }

    /// The outcome of an operation that has one.
    pub open spec fn result(self) -> OperationResult {
        match self {
            UdpOperation::Accept(_, e) => OperationResult::Failed(e),
            UdpOperation::Connect(_, Ok(())) => OperationResult::Connect,
            UdpOperation::Connect(_, Err(e)) => OperationResult::Failed(e),
            UdpOperation::Push(_, Ok(())) => OperationResult::Push,
            UdpOperation::Push(_, Err(e)) => OperationResult::Failed(e),
            UdpOperation::Pop(f) => match f.done {
                Some(Ok((addr, bytes))) => OperationResult::Pop(addr, bytes),
                Some(Err(e)) => OperationResult::Failed(e),
                None => arbitrary(),
            },
        }
    }

    /// What a poll of a read finds: the outcome it has, or what the peer
    /// `udp` hands out.
    pub open spec fn poll_outcome(self, udp: UdpView) -> Option<
        Result<(Option<Endpoint>, Bytes), Fail>,
    > {
        match self {
            UdpOperation::Pop(f) => match f.done {
                Some(done) => Some(done),
                None => match f.future.listener {
                    Err(e) => Some(Err(e)),
                    Ok(local) => match udp.poll_pop_result(local) {
                        Poll::Ready(r) => Some(r),
                        Poll::Pending => None,
                    },
                },
            },
            _ => None,
        }
    }

    /// The operation after a poll.
    pub open spec fn polled(self, udp: UdpView) -> UdpOperation {
        match self {
            UdpOperation::Pop(f) => UdpOperation::Pop(
                ResultFuture { future: f.future, done: self.poll_outcome(udp) },
            ),
            _ => self,
        }
    }

    /// The peer after a poll of the operation by `ctx`.
    pub open spec fn polled_peer(self, udp: UdpView, ctx: Waker) -> UdpView {
        match self {
            UdpOperation::Pop(f) => match (f.done, f.future.listener) {
                (None, Ok(local)) => udp.poll(local, ctx),
                _ => udp,
            },
            _ => udp,
        }
    }

    /// Moves the operation on by one step: a read takes the datagram that
    /// waits for it, or leaves `ctx` to be woken when one comes in.
    pub fn poll(&mut self, udp: &mut UdpPeer, ctx: &Waker) -> (polled: Poll<()>)
        requires
            old(udp).wf(),
        ensures
            final(udp).wf(),
            *final(self) == old(self).polled(old(udp)@),
            final(udp)@ == old(self).polled_peer(old(udp)@, *ctx),
            final(udp)@.sockets == old(udp)@.sockets,
            polled is Ready <==> final(self).is_ready(),
    {
        match self {
            UdpOperation::Accept(..) | UdpOperation::Connect(..) | UdpOperation::Push(..) => {
                Poll::Ready(())
            },
            UdpOperation::Pop(f) => {
                if f.done.is_some() {
                    return Poll::Ready(());
                }
                let polled = match f.future.listener {
                    Err(e) => Poll::Ready(Err(e)),
                    Ok(local) => udp.poll_pop(local, ctx),
                };
                match polled {
                    Poll::Ready(r) => {
                        f.done = Some(r);
                        Poll::Ready(())
                    },
                    Poll::Pending => Poll::Pending,
                }
            },
        }
    }

    /// Gives up the operation for the descriptor it worked on and its
    /// outcome.
    pub fn expect_result(self) -> (outcome: (FileDescriptor, OperationResult))
        requires
            self.is_ready(),
        ensures
            outcome.0 == self.fd(),
            outcome.1 == self.result(),
    {
        match self {
            UdpOperation::Push(fd, Err(e)) => (fd, OperationResult::Failed(e)),
            UdpOperation::Connect(fd, Err(e)) => (fd, OperationResult::Failed(e)),
            UdpOperation::Accept(fd, e) => (fd, OperationResult::Failed(e)),
            UdpOperation::Connect(fd, Ok(())) => (fd, OperationResult::Connect),
            UdpOperation::Push(fd, Ok(())) => (fd, OperationResult::Push),
            UdpOperation::Pop(f) => {
                let fd = f.future.fd;
                match f.done.unwrap() {
                    Ok((addr, bytes)) => (fd, OperationResult::Pop(addr, bytes)),
                    Err(e) => (fd, OperationResult::Failed(e)),
                }
            },
        }
    }
}

} // verus!
