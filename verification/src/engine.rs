//! The engine: it finds the protocol behind a descriptor and hands each
//! call to the TCP or the UDP peer.

use crate::fail::Fail;
use crate::file_table::{
    is_full, lowest_vacant, sockets_open_as, File, FileDescriptor, FileTable,
};
use crate::operations::{OperationResult, ResultFuture};
use crate::protocols::ip::Port;
use crate::protocols::ipv4::Endpoint;
use crate::protocols::tcp::operations::{
    AcceptFuture,
    ConnectFuture,
    PopFuture,
    PushFuture,
    TcpOperation,
};
use crate::protocols::tcp::peer::{connection_key, with_segment, Socket, TcpPeer, TcpView};
use crate::protocols::tcp::receiver::ReceiverState;
use crate::protocols::tcp::segment::TcpSegment;
use crate::protocols::udp::{Datagram, OutgoingReq, UdpOperation, UdpPeer, UdpView};
use crate::runtime::{
    woken_after,
    Frame,
    Packet,
    PacketSerialize,
    Runtime,
    RuntimeView,
    IPPROTO_TCP,
    IPPROTO_UDP,
};
use crate::scheduler::Operation;
use crate::sync::Bytes;
use vstd::prelude::*;

verus! {

/// The protocol of a socket.
#[derive(Clone, Copy, Debug, PartialEq, Eq, Structural)]
pub enum Protocol {
    Tcp,
    Udp,
}

/// The stack below the socket interface: the open descriptors, the two
/// peers, and what is shared with the runtime.
pub struct Engine {
    pub file_table: FileTable,
    pub udp: UdpPeer,
    pub tcp: TcpPeer,
    pub rt: Runtime,
}

/// The engine as plain values.
pub struct EngineView {
    /// The open descriptors and the protocol of each.
    pub files: Map<u32, File>,
    pub udp: UdpView,
    pub tcp: TcpView,
    pub rt: RuntimeView,
}

impl View for Engine {
    type V = EngineView;

    open spec fn view(&self) -> EngineView {
        EngineView { files: self.file_table@, udp: self.udp@, tcp: self.tcp@, rt: self.rt@ }
    }
}

/// The error for a descriptor that is not open, or that belongs to a
/// protocol for which the call has no meaning.
pub open spec fn invalid_descriptor() -> Fail {
    Fail::Malformed { details: "Invalid file descriptor" }
}

/// The datagrams `requests` as packets.
pub open spec fn udp_packets(requests: Seq<OutgoingReq>) -> Seq<Packet> {
    Seq::new(requests.len(), |i: int| Packet::Udp(requests[i]))
}

impl EngineView {
    /// Whether the engine has no socket and shares `rt` with the runtime.
    pub open spec fn is_fresh(self, rt: RuntimeView) -> bool {
        self.is_fresh_from(rt, crate::protocols::ip::FIRST_PRIVATE_PORT)
    }

    /// Whether the engine has no socket, shares `rt` with the runtime and
    /// takes its ephemeral ports from `first_port` on.
    pub open spec fn is_fresh_from(self, rt: RuntimeView, first_port: u16) -> bool {
        &&& self.rt == rt
        &&& self.files == Map::<u32, File>::empty()
        &&& self.udp == (UdpView {
            sockets: Map::empty(),
            bound: Map::empty(),
            outgoing: Seq::empty(),
        })
        &&& self.tcp.is_fresh_from(first_port)
    }

    /// The protocol behind `fd`, if `fd` is open.
    pub open spec fn kind(self, fd: FileDescriptor) -> Option<File> {
        if self.files.contains_key(fd) {
            Some(self.files[fd])
        } else {
            None
        }
    }

    /// Whether `other` is this engine but for what its pool holds.
    pub open spec fn same_but_pool(self, other: EngineView) -> bool {
        other == (EngineView {
            rt: RuntimeView { pool: other.rt.pool, ..self.rt },
            ..self
        })
    }

    /// The outcome of `socket`: the lowest descriptor that is not open.
    pub open spec fn socket_result(self) -> Result<FileDescriptor, Fail> {
        if is_full(self.files) {
            Err(Fail::ResourceExhausted { details: "Out of file descriptors" })
        } else {
            Ok(lowest_vacant(self.files))
        }
    }

    /// The engine after `socket` opened a socket of the protocol
    /// `protocol`.
    pub open spec fn socket(self, protocol: Protocol) -> EngineView {
        if is_full(self.files) {
            self
        } else {
            let fd = lowest_vacant(self.files);
            match protocol {
                Protocol::Tcp => EngineView {
                    files: self.files.insert(fd, File::TcpSocket),
                    tcp: TcpView {
                        sockets: self.tcp.sockets.insert(
                            fd as u128,
                            Socket::Inactive { local: None },
                        ),
                        ..self.tcp
                    },
                    ..self
                },
                Protocol::Udp => EngineView {
                    files: self.files.insert(fd, File::UdpSocket),
                    udp: UdpView {
                        sockets: self.udp.sockets.insert(
                            fd as u128,
                            crate::protocols::udp::Socket { local: None, remote: None },
                        ),
                        ..self.udp
                    },
                    ..self
                },
            }
        }
    }

    /// The outcome of `bind`.
    pub open spec fn bind_result(self, fd: FileDescriptor, endpoint: Endpoint) -> Result<(), Fail> {
        match self.kind(fd) {
            Some(File::TcpSocket) => if self.tcp.can_bind(fd) {
                Ok(())
            } else {
                Err(invalid_descriptor())
            },
            Some(File::UdpSocket) => self.udp.bind_result(fd, endpoint),
            None => Err(invalid_descriptor()),
        }
    }

    /// The engine after `bind`.
    pub open spec fn bind(self, fd: FileDescriptor, endpoint: Endpoint) -> EngineView {
        match self.kind(fd) {
            Some(File::TcpSocket) => EngineView { tcp: self.tcp.bind(fd, endpoint), ..self },
            Some(File::UdpSocket) => EngineView { udp: self.udp.bind(fd, endpoint), ..self },
            None => self,
        }
    }

    /// The outcome of `listen`: UDP has nothing to listen for.
    pub open spec fn listen_result(self, fd: FileDescriptor) -> Result<(), Fail> {
        match self.kind(fd) {
            Some(File::TcpSocket) => self.tcp.listen_result(fd),
            Some(File::UdpSocket) => Err(Fail::Malformed { details: "Operation not supported" }),
            None => Err(invalid_descriptor()),
        }
    }

    /// The engine after `listen`.
    pub open spec fn listen(self, fd: FileDescriptor, backlog: usize) -> EngineView {
        match self.kind(fd) {
            Some(File::TcpSocket) => EngineView { tcp: self.tcp.listen(fd, backlog), ..self },
            _ => self,
        }
    }

    /// The engine after `connect`, where a TCP handshake begins with the
    /// sequence number `isn`. What the pool holds is left open.
    pub open spec fn connect(self, fd: FileDescriptor, remote: Endpoint, isn: u32) -> EngineView {
        match self.kind(fd) {
            Some(File::TcpSocket) => EngineView {
                tcp: self.tcp.connect(fd, remote, isn, self.rt.ipv4_addr),
                rt: RuntimeView {
                    outgoing: self.tcp.connect_outgoing(fd, remote, isn, self.rt),
                    ..self.rt
                },
                ..self
            },
            Some(File::UdpSocket) => EngineView { udp: self.udp.connect(fd, remote), ..self },
            None => self,
        }
    }

    /// The operation that `connect` hands out.
    pub open spec fn connect_operation(self, fd: FileDescriptor, remote: Endpoint) -> Result<
        Operation,
        Fail,
    > {
        match self.kind(fd) {
            Some(File::TcpSocket) => Ok(
                Operation::Tcp(
                    TcpOperation::Connect(
                        ResultFuture {
                            future: ConnectFuture {
                                fd,
                                started: self.tcp.connect_result(fd, remote, self.rt.ipv4_addr),
                            },
                            done: None,
                        },
                    ),
                ),
            ),
            Some(File::UdpSocket) => Ok(
                Operation::Udp(
                    UdpOperation::Connect(
                        fd,
                        if self.udp.can_connect(fd) {
                            Ok(())
                        } else {
                            Err(
                                Fail::Malformed {
                                    details: "Please bind the socket before connecting",
                                },
                            )
                        },
                    ),
                ),
            ),
            None => Err(invalid_descriptor()),
        }
    }

    /// The operation that `accept` hands out.
    pub open spec fn accept_operation(self, fd: FileDescriptor) -> Result<Operation, Fail> {
        match self.kind(fd) {
            Some(File::TcpSocket) => Ok(
                Operation::Tcp(
                    TcpOperation::Accept(ResultFuture { future: AcceptFuture { fd }, done: None }),
                ),
            ),
            Some(File::UdpSocket) => Ok(
                Operation::Udp(
                    UdpOperation::Accept(
                        fd,
                        Fail::Malformed { details: "Operation not supported" },
                    ),
                ),
            ),
            None => Err(invalid_descriptor()),
        }
    }

    /// The engine after `push`.
    pub open spec fn push(self, fd: FileDescriptor, buf: Bytes) -> EngineView {
        match self.kind(fd) {
            Some(File::TcpSocket) => EngineView {
                tcp: self.tcp.push(fd, buf, self.rt.now),
                rt: RuntimeView {
                    outgoing: if self.tcp.push_result(fd, buf) is Ok {
                        self.rt.outgoing.push(
                            Packet::Tcp(
                                TcpView::data_segment(
                                    self.tcp.established[self.tcp.connection_of(fd)->Some_0],
                                    buf,
                                ),
                            ),
                        )
                    } else {
                        self.rt.outgoing
                    },
                    ..self.rt
                },
                ..self
            },
            Some(File::UdpSocket) => EngineView {
                udp: self.udp.send(self.udp.push_request(fd, buf)),
                ..self
            },
            None => self,
        }
    }

    /// The operation that `push` hands out.
    pub open spec fn push_operation(self, fd: FileDescriptor, buf: Bytes) -> Result<
        Operation,
        Fail,
    > {
        match self.kind(fd) {
            Some(File::TcpSocket) => Ok(
                Operation::Tcp(
                    TcpOperation::Push(
                        ResultFuture {
                            future: PushFuture { fd, result: self.tcp.push_result(fd, buf) },
                            done: None,
                        },
                    ),
                ),
            ),
            Some(File::UdpSocket) => Ok(
                Operation::Udp(UdpOperation::Push(fd, self.udp_push_result(fd, buf))),
            ),
            None => Err(invalid_descriptor()),
        }
    }

    /// The outcome of a send of `buf` from the UDP socket `fd` to its
    /// default destination.
    pub open spec fn udp_push_result(self, fd: FileDescriptor, buf: Bytes) -> Result<(), Fail> {
        if self.udp.push_request(fd, buf) is Some {
            Ok(())
        } else {
            Err(Fail::Malformed { details: "Invalid file descriptor on push" })
        }
    }

    /// The outcome of a send of `buf` from the UDP socket `fd` to `to`.
    pub open spec fn udp_pushto_result(
        self,
        fd: FileDescriptor,
        buf: Bytes,
        to: Endpoint,
    ) -> Result<
        (),
        Fail,
    > {
        if self.udp.pushto_request(fd, buf, to) is Some {
            Ok(())
        } else {
            Err(Fail::Malformed { details: "Invalid file descriptor on push" })
        }
    }

    /// The engine after `pushto`. Only UDP sends to an endpoint of choice.
    pub open spec fn pushto(self, fd: FileDescriptor, buf: Bytes, to: Endpoint) -> EngineView {
        match self.kind(fd) {
            Some(File::UdpSocket) => EngineView {
                udp: self.udp.send(self.udp.pushto_request(fd, buf, to)),
                ..self
            },
            _ => self,
        }
    }

    /// The operation that `pushto` hands out.
    pub open spec fn pushto_operation(self, fd: FileDescriptor, buf: Bytes, to: Endpoint) -> Result<
        Operation,
        Fail,
    > {
        match self.kind(fd) {
            Some(File::UdpSocket) => Ok(
                Operation::Udp(UdpOperation::Push(fd, self.udp_pushto_result(fd, buf, to))),
            ),
            _ => Err(invalid_descriptor()),
        }
    }

    /// The read that `udp_pop` begins.
    pub open spec fn udp_pop_future(self, fd: FileDescriptor) -> crate::protocols::udp::PopFuture {
        crate::protocols::udp::PopFuture {
            fd,
            listener: match self.udp.listener_of(fd) {
                Some(local) => Ok(local),
                None => Err(invalid_descriptor()),
            },
        }
    }

    /// The operation that `pop` hands out.
    pub open spec fn pop_operation(self, fd: FileDescriptor) -> Result<Operation, Fail> {
        match self.kind(fd) {
            Some(File::TcpSocket) => Ok(
                Operation::Tcp(
                    TcpOperation::Pop(ResultFuture { future: PopFuture { fd }, done: None }),
                ),
            ),
            Some(File::UdpSocket) => Ok(
                Operation::Udp(
                    UdpOperation::Pop(
                        ResultFuture { future: self.udp_pop_future(fd), done: None },
                    ),
                ),
            ),
            None => Err(invalid_descriptor()),
        }
    }

    /// The outcome of `close`.
    pub open spec fn close_result(self, fd: FileDescriptor) -> Result<(), Fail> {
        match self.kind(fd) {
            Some(File::TcpSocket) => if self.tcp.socket(fd) is Some {
                Ok(())
            } else {
                Err(invalid_descriptor())
            },
            Some(File::UdpSocket) => if self.udp.sockets.contains_key(fd as u128) {
                Ok(())
            } else {
                Err(invalid_descriptor())
            },
            None => Err(invalid_descriptor()),
        }
    }

    /// The engine after `close`. What the pool holds is left open.
    pub open spec fn close(self, fd: FileDescriptor) -> EngineView {
        if self.close_result(fd) is Ok {
            match self.kind(fd) {
                Some(File::TcpSocket) => EngineView {
                    files: self.files.remove(fd),
                    tcp: self.tcp.close(fd, self.rt.now),
                    rt: RuntimeView {
                        outgoing: with_segment(self.rt.outgoing, self.tcp.close_segment(fd)),
                        ..self.rt
                    },
                    ..self
                },
                _ => EngineView {
                    files: self.files.remove(fd),
                    udp: self.udp.close(fd),
                    ..self
                },
            }
        } else {
            self
        }
    }

    /// The views that `close` lets go: the datagrams that nobody read.
    pub open spec fn close_released(self, fd: FileDescriptor) -> Seq<Bytes> {
        match self.kind(fd) {
            Some(File::UdpSocket) => if self.udp.sockets.contains_key(fd as u128) {
                self.udp.undelivered(fd)
            } else {
                Seq::empty()
            },
            _ => Seq::empty(),
        }
    }

    /// The outcome of what came in with `frame`.
    pub open spec fn receive_result(self, frame: Frame) -> Result<(), Fail> {
        if frame.protocol == IPPROTO_TCP {
            if TcpSegment::parses(frame.payload@) {
                self.tcp.receive_result(
                    TcpSegment::parsed(frame.src_addr, frame.dst_addr, frame.payload),
                    self.rt.now,
                )
            } else {
                Err(TcpSegment::parse_error(frame.payload@))
            }
        } else if frame.protocol == IPPROTO_UDP {
            if Datagram::parses(frame.payload@) {
                let datagram = Datagram::parsed(frame.src_addr, frame.dst_addr, frame.payload);
                if self.udp.bound.contains_key(datagram.local.spec_key()) {
                    Ok(())
                } else {
                    Err(Fail::Malformed { details: "Port not bound" })
                }
            } else {
                Err(Datagram::parse_error(frame.payload@))
            }
        } else {
            Err(Fail::Malformed { details: "Unknown protocol" })
        }
    }

    /// The engine after `frame` came in, where a TCP handshake that a peer
    /// begins gets the sequence number `isn`. What the pool holds is left
    /// open.
    pub open spec fn receive(self, frame: Frame, isn: u32) -> EngineView {
        if frame.protocol == IPPROTO_TCP && TcpSegment::parses(frame.payload@) {
            let segment = TcpSegment::parsed(frame.src_addr, frame.dst_addr, frame.payload);
            EngineView {
                tcp: self.tcp.receive(segment, isn, self.rt.now, self.rt.tcp_options),
                rt: RuntimeView {
                    outgoing: with_segment(
                        self.rt.outgoing,
                        self.tcp.receive_answer(segment, isn, self.rt.tcp_options),
                    ),
                    wakes: self.tcp.receive_wakes(segment, self.rt.now, self.rt.wakes),
                    ..self.rt
                },
                ..self
            }
        } else if frame.protocol == IPPROTO_UDP && Datagram::parses(frame.payload@) {
            let datagram = Datagram::parsed(frame.src_addr, frame.dst_addr, frame.payload);
            EngineView {
                udp: self.udp.receive(datagram.local, datagram.remote, datagram.payload),
                rt: RuntimeView {
                    wakes: if self.udp.bound.contains_key(datagram.local.spec_key()) {
                        woken_after(
                            self.rt.wakes,
                            self.udp.bound[datagram.local.spec_key()].waker,
                        )
                    } else {
                        self.rt.wakes
                    },
                    ..self.rt
                },
                ..self
            }
        } else {
            self
        }
    }

    /// From end to end: where `frame` holds the bytes that the peer wrote
    /// for its segment `sent`, the connection of the socket `fd` is the one
    /// that `sent` travels on and expects the data of `sent` next, and the
    /// connection has nothing to read, the operation that `pop` hands out
    /// for `fd` has its outcome at its first poll, and the outcome is the
    /// data that the peer sent, whole and unchanged.
    pub proof fn lemma_sent_bytes_are_popped(
        self,
        fd: FileDescriptor,
        sent: TcpSegment,
        frame: Frame,
        isn: u32,
    )
        requires
            self.kind(fd) == Some(File::TcpSocket),
            sent.src.port@ != 0,
            sent.dst.port@ != 0,
            frame.protocol == IPPROTO_TCP,
            frame.src_addr == sent.src.addr,
            frame.dst_addr == sent.dst.addr,
            frame.payload.wf(),
            frame.payload@ == sent.wire(),
            ({
                let key = connection_key(sent.dst, sent.src);
                let receiver = self.tcp.established[key].receiver;
                &&& self.tcp.connection_of(fd) == Some(key)
                &&& receiver.wf()
                &&& receiver.state == ReceiverState::Open
                &&& receiver.recv_queue.len() == 0
                &&& sent.seq_num == receiver.recv_seq_no
                &&& 0 < sent.payload@.len() <= receiver.max_window_size
            }),
        ensures
            ({
                let after = self.receive(frame, isn);
                &&& after.pop_operation(fd) matches Ok(operation)
                &&& !operation.is_ready()
                &&& operation.polled(after).is_ready()
                &&& operation.polled(after).fd() == fd
                &&& operation.polled(after).result() matches OperationResult::Pop(None, bytes)
                &&& bytes@ == sent.payload@
            }),
    {
        sent.lemma_wire_says_segment();
        TcpSegment::lemma_parsed_says(frame.src_addr, frame.dst_addr, frame.payload);
        let segment = TcpSegment::parsed(frame.src_addr, frame.dst_addr, frame.payload);
        Port::lemma_spec_from(sent.src.port@);
        Port::lemma_spec_from(sent.dst.port@);
        assert(segment.src == sent.src);
        assert(segment.dst == sent.dst);
        assert(segment.seq_num == sent.seq_num);
        assert(segment.payload@ == sent.payload@);
        self.lemma_pushed_bytes_are_popped(fd, frame, isn);
    }

    /// Where `frame` brings a TCP segment with the bytes that the
    /// connection of the socket `fd` expects next, and the connection has
    /// nothing to read, the operation that `pop` hands out for `fd` has its
    /// outcome at its first poll, and the outcome is the bytes that the
    /// segment carried, whole and unchanged.
    pub proof fn lemma_pushed_bytes_are_popped(self, fd: FileDescriptor, frame: Frame, isn: u32)
        requires
            self.kind(fd) == Some(File::TcpSocket),
            frame.protocol == IPPROTO_TCP,
            TcpSegment::parses(frame.payload@),
            ({
                let segment = TcpSegment::parsed(frame.src_addr, frame.dst_addr, frame.payload);
                let key = connection_key(segment.dst, segment.src);
                let receiver = self.tcp.established[key].receiver;
                &&& self.tcp.connection_of(fd) == Some(key)
                &&& receiver.wf()
                &&& receiver.state == ReceiverState::Open
                &&& receiver.recv_queue.len() == 0
                &&& segment.seq_num == receiver.recv_seq_no
                &&& 0 < segment.payload@.len() <= receiver.max_window_size
            }),
        ensures
            ({
                let segment = TcpSegment::parsed(frame.src_addr, frame.dst_addr, frame.payload);
                let after = self.receive(frame, isn);
                &&& after.pop_operation(fd) matches Ok(operation)
                &&& !operation.is_ready()
                &&& operation.polled(after).is_ready()
                &&& operation.polled(after).fd() == fd
                &&& operation.polled(after).result() == OperationResult::Pop(None, segment.payload)
            }),
    {
        let segment = TcpSegment::parsed(frame.src_addr, frame.dst_addr, frame.payload);
        self.tcp.lemma_delivered_bytes_are_popped(
            fd,
            segment,
            isn,
            self.rt.now,
            self.rt.tcp_options,
        );
    }

    /// Whether `after` is this engine once `frame` came in: a TCP handshake
    /// that a peer begins gets some sequence number, and the views that
    /// are let go are donated to the pool.
    pub open spec fn received(self, frame: Frame, after: EngineView) -> bool {
        &&& exists|isn: u32| (#[trigger] self.receive(frame, isn)).same_but_pool(after)
        &&& self.rt.pool.donated_all(self.receive_released(frame), after.rt.pool)
    }

    /// The engine after the frame that came in first was taken out to be
    /// looked at.
    pub open spec fn next_frame(self) -> EngineView {
        EngineView { rt: RuntimeView { incoming: self.rt.incoming.skip(1), ..self.rt }, ..self }
    }

    /// Whether `after` is this engine once the `n` frames that came in
    /// first were looked at, one after the other.
    pub open spec fn drained(self, n: nat, after: EngineView) -> bool
        decreases n,
    {
        if n == 0 {
            after == self
        } else {
            exists|mid: EngineView|
                self.drained((n - 1) as nat, mid) && mid.rt.incoming.len() > 0
                    && #[trigger] mid.next_frame().received(mid.rt.incoming[0], after)
        }
    }

    /// The views that the engine lets go when `frame` comes in.
    pub open spec fn receive_released(self, frame: Frame) -> Seq<Bytes> {
        if frame.protocol == IPPROTO_TCP && TcpSegment::parses(frame.payload@) {
            self.tcp.receive_released(
                TcpSegment::parsed(frame.src_addr, frame.dst_addr, frame.payload),
                self.rt.now,
            )
        } else {
            Seq::empty()
        }
    }

    /// The engine after its background work: the datagrams that wait at the
    /// UDP peer are queued for transmission, and the timers of the TCP
    /// connections are looked at.
    pub open spec fn background(self) -> EngineView {
        EngineView {
            udp: UdpView { outgoing: Seq::empty(), ..self.udp },
            tcp: self.tcp.sweep(self.tcp.connections.len(), self.rt.now),
            rt: RuntimeView {
                outgoing: self.rt.outgoing + udp_packets(self.udp.outgoing)
                    + self.tcp.sweep_segments(self.tcp.connections.len(), self.rt.now),
                ..self.rt
            },
            ..self
        }
    }
}

impl EngineView {
    /// Whether every socket of the two peers stands under a descriptor that
    /// is open as a socket of its protocol. No descriptor then names a
    /// socket of both, and a descriptor that is not open names none.
    pub open spec fn sockets_are_open(self) -> bool {
        &&& sockets_open_as(self.udp.sockets, self.files, File::UdpSocket)
        &&& sockets_open_as(self.tcp.sockets, self.files, File::TcpSocket)
    }
}

/// From one engine to the other: where the socket `near_fd` of the engine
/// `near` pushes `data`, `frame` holds the bytes of the segment that the
/// push queued, and the connection of the socket `far_fd` of the engine
/// `far` is the other end of the same connection, has nothing to read and
/// expects the sequence number that `near` sends next, the operation that
/// `pop` hands out for `far_fd` has its outcome at its first poll after the
/// frame came in, and the outcome is `data`, whole and unchanged.
pub proof fn lemma_bytes_pushed_by_the_peer_are_popped(
    near: EngineView,
    near_fd: FileDescriptor,
    far: EngineView,
    far_fd: FileDescriptor,
    data: Bytes,
    frame: Frame,
    isn: u32,
)
    requires
        near.kind(near_fd) == Some(File::TcpSocket),
        near.tcp.push_result(near_fd, data) is Ok,
        far.kind(far_fd) == Some(File::TcpSocket),
        ({
            let cb = near.tcp.established[near.tcp.connection_of(near_fd)->Some_0];
            let key = connection_key(cb.remote, cb.local);
            let receiver = far.tcp.established[key].receiver;
            &&& cb.local.port@ != 0
            &&& cb.remote.port@ != 0
            &&& frame.protocol == IPPROTO_TCP
            &&& frame.src_addr == cb.local.addr
            &&& frame.dst_addr == cb.remote.addr
            &&& frame.payload.wf()
            &&& frame.payload@ == TcpView::data_segment(cb, data).wire()
            &&& far.tcp.connection_of(far_fd) == Some(key)
            &&& receiver.wf()
            &&& receiver.state == ReceiverState::Open
            &&& receiver.recv_queue.len() == 0
            &&& receiver.recv_seq_no == cb.sender.sent_seq_no
            &&& 0 < data@.len() <= receiver.max_window_size
        }),
    ensures
        ({
            let cb = near.tcp.established[near.tcp.connection_of(near_fd)->Some_0];
            let after = far.receive(frame, isn);
            &&& near.push(near_fd, data).rt.outgoing == near.rt.outgoing.push(
                Packet::Tcp(TcpView::data_segment(cb, data)),
            )
            &&& after.pop_operation(far_fd) matches Ok(operation)
            &&& operation.polled(after).is_ready()
            &&& operation.polled(after).result() matches OperationResult::Pop(None, bytes)
            &&& bytes@ == data@
        }),
{
    let cb = near.tcp.established[near.tcp.connection_of(near_fd)->Some_0];
    far.lemma_sent_bytes_are_popped(far_fd, TcpView::data_segment(cb, data), frame, isn);
}

impl Engine {
    /// Whether every part of the engine keeps its invariant, and every
    /// socket of the two peers stands under an open descriptor of its
    /// protocol.
    pub open spec fn wf(&self) -> bool {
        &&& self.file_table.wf()
        &&& self.udp.wf()
        &&& self.tcp.wf()
        &&& self@.sockets_are_open()
    }

    /// An engine with no socket, on top of the runtime `rt`.
    pub fn new(rt: Runtime) -> (engine: Result<Engine, Fail>)
        ensures
            engine matches Ok(e) && e.wf() && e@.is_fresh(rt@),
    {
        Engine::with_first_port(rt, Port::first_private_port())
    }

    /// An engine with no socket, on top of the runtime `rt`, whose
    /// ephemeral ports are the ports from `first_port` on.
    pub fn with_first_port(rt: Runtime, first_port: Port) -> (engine: Result<Engine, Fail>)
        ensures
            engine matches Ok(e) && e.wf() && e@.is_fresh_from(rt@, first_port@),
    {
        let file_table = FileTable::new();
        let udp = UdpPeer::new();
        let tcp = TcpPeer::with_first_port(first_port);
        Ok(Engine { file_table, udp, tcp, rt })
    }

    /// Opens a socket of the protocol `protocol`, under the lowest
    /// descriptor that is not open.
    pub fn socket(&mut self, protocol: Protocol) -> (opened: Result<FileDescriptor, Fail>)
        requires
            old(self).wf(),
        ensures
            final(self).wf(),
            opened == old(self)@.socket_result(),
            final(self)@ == old(self)@.socket(protocol),
            opened matches Ok(fd) ==> {
                &&& !old(self)@.files.contains_key(fd)
                &&& !old(self)@.udp.sockets.contains_key(fd as u128)
                &&& !old(self)@.tcp.sockets.contains_key(fd as u128)
            },
    {
        match protocol {
            Protocol::Tcp => self.tcp.socket(&mut self.file_table),
            Protocol::Udp => self.udp.socket(&mut self.file_table),
        }
    }

    /// Begins a connection of the socket `fd` to `remote`, where a TCP
    /// handshake begins with the sequence number `isn`.
    pub fn connect_with(&mut self, fd: FileDescriptor, remote: Endpoint, isn: u32) -> (operation:
        Result<Operation, Fail>)
        requires
            old(self).wf(),
        ensures
            final(self).wf(),
            final(self)@ == old(self)@.connect(fd, remote, isn),
            operation == old(self)@.connect_operation(fd, remote),
    {
        match self.file_table.get(fd) {
            Some(File::TcpSocket) => {
                let started = self.tcp.connect_with(fd, remote, isn, &mut self.rt);
                Ok(
                    Operation::Tcp(
                        TcpOperation::Connect(ResultFuture::new(ConnectFuture { fd, started })),
                    ),
                )
            },
            Some(File::UdpSocket) => {
                let udp_op = UdpOperation::Connect(fd, self.udp.connect(fd, remote));
                Ok(Operation::Udp(udp_op))
            },
            None => Err(Fail::Malformed { details: "Invalid file descriptor" }),
        }
    }

    /// Begins a connection of the socket `fd` to `remote`. A TCP handshake
    /// begins with a sequence number drawn at random.
    pub fn connect(&mut self, fd: FileDescriptor, remote: Endpoint) -> (operation: Result<
        Operation,
        Fail,
    >)
        requires
            old(self).wf(),
        ensures
            final(self).wf(),
            exists|isn: u32| final(self)@ == #[trigger] old(self)@.connect(fd, remote, isn),
            operation == old(self)@.connect_operation(fd, remote),
    {
        let isn = self.rt.rng_gen();
        self.connect_with(fd, remote, isn)
    }

    /// Binds the socket `fd` to `endpoint`.
    pub fn bind(&mut self, fd: FileDescriptor, endpoint: Endpoint) -> (done: Result<(), Fail>)
        requires
            old(self).wf(),
        ensures
            final(self).wf(),
            final(self)@ == old(self)@.bind(fd, endpoint),
            done == old(self)@.bind_result(fd, endpoint),
    {
        match self.file_table.get(fd) {
            Some(File::TcpSocket) => self.tcp.bind(fd, endpoint),
            Some(File::UdpSocket) => self.udp.bind(fd, endpoint),
            None => Err(Fail::Malformed { details: "Invalid file descriptor" }),
        }
    }

    /// Begins the wait for a connection to accept on the socket `fd`.
    pub fn accept(&mut self, fd: FileDescriptor) -> (operation: Result<Operation, Fail>)
        requires
            old(self).wf(),
        ensures
            final(self).wf(),
            final(self)@ == old(self)@,
            operation == old(self)@.accept_operation(fd),
    {
        match self.file_table.get(fd) {
            Some(File::TcpSocket) => Ok(
                Operation::Tcp(TcpOperation::Accept(ResultFuture::new(self.tcp_accept(fd)))),
            ),
            Some(File::UdpSocket) => {
                let udp_op = UdpOperation::Accept(fd, self.udp.accept());
                Ok(Operation::Udp(udp_op))
            },
            None => Err(Fail::Malformed { details: "Invalid file descriptor" }),
        }
    }

    /// Lets the socket `fd` wait for peers.
    pub fn listen(&mut self, fd: FileDescriptor, backlog: usize) -> (done: Result<(), Fail>)
        requires
            old(self).wf(),
        ensures
            final(self).wf(),
            final(self)@ == old(self)@.listen(fd, backlog),
            done == old(self)@.listen_result(fd),
    {
        match self.file_table.get(fd) {
            Some(File::TcpSocket) => self.tcp.listen(fd, backlog),
            Some(File::UdpSocket) => Err(Fail::Malformed { details: "Operation not supported" }),
            None => Err(Fail::Malformed { details: "Invalid file descriptor" }),
        }
    }

    /// Sends `buf` on the socket `fd`.
    pub fn push(&mut self, fd: FileDescriptor, buf: Bytes) -> (operation: Result<Operation, Fail>)
        requires
            old(self).wf(),
        ensures
            final(self).wf(),
            final(self)@ == old(self)@.push(fd, buf),
            operation == old(self)@.push_operation(fd, buf),
    {
        match self.file_table.get(fd) {
            Some(File::TcpSocket) => Ok(
                Operation::Tcp(TcpOperation::Push(ResultFuture::new(self.tcp_push(fd, buf)))),
            ),
            Some(File::UdpSocket) => {
                let udp_op = UdpOperation::Push(fd, self.udp.push(fd, buf));
                Ok(Operation::Udp(udp_op))
            },
            None => Err(Fail::Malformed { details: "Invalid file descriptor" }),
        }
    }

    /// Sends `buf` from the UDP socket `fd` to the endpoint `to`.
    pub fn pushto(&mut self, fd: FileDescriptor, buf: Bytes, to: Endpoint) -> (operation: Result<
        Operation,
        Fail,
    >)
        requires
            old(self).wf(),
        ensures
            final(self).wf(),
            final(self)@ == old(self)@.pushto(fd, buf, to),
            operation == old(self)@.pushto_operation(fd, buf, to),
    {
        match self.file_table.get(fd) {
            Some(File::UdpSocket) => {
                let udp_op = UdpOperation::Push(fd, self.udp.pushto(fd, buf, to));
                Ok(Operation::Udp(udp_op))
            },
            _ => Err(Fail::Malformed { details: "Invalid file descriptor" }),
        }
    }

    /// Sends `buf` from the UDP socket `fd` to its default destination.
    pub fn udp_push(&mut self, fd: FileDescriptor, buf: Bytes) -> (done: Result<(), Fail>)
        requires
            old(self).wf(),
        ensures
            final(self).wf(),
            final(self)@ == (EngineView {
                udp: old(self)@.udp.send(old(self)@.udp.push_request(fd, buf)),
                ..old(self)@
            }),
            done == old(self)@.udp_push_result(fd, buf),
    {
        self.udp.push(fd, buf)
    }

    /// Begins a read of the next datagram on the UDP socket `fd`.
    pub fn udp_pop(&mut self, fd: FileDescriptor) -> (future: crate::protocols::udp::PopFuture)
        requires
            old(self).wf(),
        ensures
            final(self).wf(),
            final(self)@ == old(self)@,
            future == old(self)@.udp_pop_future(fd),
    {
        self.udp.pop(fd)
    }

    /// Begins a read on the socket `fd`.
    pub fn pop(&mut self, fd: FileDescriptor) -> (operation: Result<Operation, Fail>)
        requires
            old(self).wf(),
        ensures
            final(self).wf(),
            final(self)@ == old(self)@,
            operation == old(self)@.pop_operation(fd),
    {
        match self.file_table.get(fd) {
            Some(File::TcpSocket) => Ok(
                Operation::Tcp(TcpOperation::Pop(ResultFuture::new(self.tcp_pop(fd)))),
            ),
            Some(File::UdpSocket) => {
                let udp_op = UdpOperation::Pop(ResultFuture::new(self.udp.pop(fd)));
                Ok(Operation::Udp(udp_op))
            },
            None => Err(Fail::Malformed { details: "Invalid file descriptor" }),
        }
    }

    /// Closes the socket `fd`: the descriptor is free again, and the port
    /// that the socket used goes back to the allocator.
    pub fn close(&mut self, fd: FileDescriptor) -> (done: Result<(), Fail>)
        requires
            old(self).wf(),
        ensures
            final(self).wf(),
            old(self)@.close(fd).same_but_pool(final(self)@),
            old(self)@.rt.pool.donated_all(old(self)@.close_released(fd), final(self)@.rt.pool),
            done == old(self)@.close_result(fd),
    {
        proof {
            old(self)@.rt.pool.lemma_donated_none();
        }
        match self.file_table.get(fd) {
            Some(File::TcpSocket) => self.tcp_close(fd),
            Some(File::UdpSocket) => {
                self.udp.close(fd, &mut self.file_table, &mut self.rt.pool)
            },
            None => Err(Fail::Malformed { details: "Invalid file descriptor" }),
        }
    }

    /// Opens a TCP socket.
    pub fn tcp_socket(&mut self) -> (opened: Result<FileDescriptor, Fail>)
        requires
            old(self).wf(),
        ensures
            final(self).wf(),
            opened == old(self)@.socket_result(),
            final(self)@ == old(self)@.socket(Protocol::Tcp),
    {
        self.tcp.socket(&mut self.file_table)
    }

    /// Begins the handshake of the TCP socket `fd` with `remote_endpoint`.
    pub fn tcp_connect(&mut self, socket_fd: FileDescriptor, remote_endpoint: Endpoint) -> (future:
        ConnectFuture)
        requires
            old(self).wf(),
        ensures
            final(self).wf(),
            future == (ConnectFuture {
                fd: socket_fd,
                started: old(self)@.tcp.connect_result(
                    socket_fd,
                    remote_endpoint,
                    old(self)@.rt.ipv4_addr,
                ),
            }),
            exists|isn: u32|
                final(self)@ == (EngineView {
                    tcp: #[trigger] old(self)@.tcp.connect(
                        socket_fd,
                        remote_endpoint,
                        isn,
                        old(self)@.rt.ipv4_addr,
                    ),
                    rt: RuntimeView {
                        outgoing: old(self)@.tcp.connect_outgoing(
                            socket_fd,
                            remote_endpoint,
                            isn,
                            old(self)@.rt,
                        ),
                        ..old(self)@.rt
                    },
                    ..old(self)@
                }),
    {
        let started = self.tcp.connect(socket_fd, remote_endpoint, &mut self.rt);
        ConnectFuture { fd: socket_fd, started }
    }

    /// Binds the TCP socket `fd` to `endpoint`.
    pub fn tcp_bind(&mut self, socket_fd: FileDescriptor, endpoint: Endpoint) -> (done: Result<
        (),
        Fail,
    >)
        requires
            old(self).wf(),
        ensures
            final(self).wf(),
            final(self)@ == (EngineView {
                tcp: old(self)@.tcp.bind(socket_fd, endpoint),
                ..old(self)@
            }),
            done == (if old(self)@.tcp.can_bind(socket_fd) {
                Ok(())
            } else {
                Err(invalid_descriptor())
            }),
    {
        self.tcp.bind(socket_fd, endpoint)
    }

    /// Begins the wait for a connection to accept on the TCP socket
    /// `handle`.
    pub fn tcp_accept(&mut self, handle: FileDescriptor) -> (future: AcceptFuture)
        ensures
            final(self)@ == old(self)@,
            *final(self) == *old(self),
            future.fd == handle,
    {
        AcceptFuture { fd: handle }
    }

    /// Sends `buf` on the TCP socket `fd`.
    pub fn tcp_push(&mut self, socket_fd: FileDescriptor, buf: Bytes) -> (future: PushFuture)
        requires
            old(self).wf(),
        ensures
            final(self).wf(),
            final(self)@ == (EngineView {
                tcp: old(self)@.tcp.push(socket_fd, buf, old(self)@.rt.now),
                rt: RuntimeView {
                    outgoing: if old(self)@.tcp.push_result(socket_fd, buf) is Ok {
                        old(self)@.rt.outgoing.push(
                            Packet::Tcp(
                                TcpView::data_segment(
                                    old(self)@.tcp.established[old(self)@.tcp.connection_of(
                                        socket_fd,
                                    )->Some_0],
                                    buf,
                                ),
                            ),
                        )
                    } else {
                        old(self)@.rt.outgoing
                    },
                    ..old(self)@.rt
                },
                ..old(self)@
            }),
            future == (PushFuture {
                fd: socket_fd,
                result: old(self)@.tcp.push_result(socket_fd, buf),
            }),
    {
        let result = self.tcp.push(socket_fd, buf, &mut self.rt);
        PushFuture { fd: socket_fd, result }
    }

    /// Begins a read on the TCP socket `fd`.
    pub fn tcp_pop(&mut self, socket_fd: FileDescriptor) -> (future: PopFuture)
        ensures
            final(self)@ == old(self)@,
            *final(self) == *old(self),
            future.fd == socket_fd,
    {
        PopFuture { fd: socket_fd }
    }

    /// Closes the TCP socket `fd`.
    pub fn tcp_close(&mut self, socket_fd: FileDescriptor) -> (done: Result<(), Fail>)
        requires
            old(self).wf(),
        ensures
            final(self).wf(),
            final(self)@ == (EngineView {
                tcp: old(self)@.tcp.close(socket_fd, old(self)@.rt.now),
                files: if old(self)@.tcp.socket(socket_fd) is Some {
                    old(self)@.files.remove(socket_fd)
                } else {
                    old(self)@.files
                },
                rt: RuntimeView {
                    outgoing: with_segment(
                        old(self)@.rt.outgoing,
                        old(self)@.tcp.close_segment(socket_fd),
                    ),
                    ..old(self)@.rt
                },
                ..old(self)@
            }),
            done == (if old(self)@.tcp.socket(socket_fd) is Some {
                Ok(())
            } else {
                Err(invalid_descriptor())
            }),
    {
        self.tcp.close(socket_fd, &mut self.file_table, &mut self.rt)
    }

    /// Lets the TCP socket `fd` wait for peers.
    pub fn tcp_listen(&mut self, socket_fd: FileDescriptor, backlog: usize) -> (done: Result<
        (),
        Fail,
    >)
        requires
            old(self).wf(),
        ensures
            final(self).wf(),
            final(self)@ == (EngineView {
                tcp: old(self)@.tcp.listen(socket_fd, backlog),
                ..old(self)@
            }),
            done == old(self)@.tcp.listen_result(socket_fd),
    {
        self.tcp.listen(socket_fd, backlog)
    }

    /// Takes in what came from the network with `frame`, where a TCP
    /// handshake that a peer begins gets the sequence number `isn`.
    pub fn receive_with(&mut self, frame: Frame, isn: u32) -> (done: Result<(), Fail>)
        requires
            old(self).wf(),
        ensures
            final(self).wf(),
            old(self)@.receive(frame, isn).same_but_pool(final(self)@),
            old(self)@.rt.pool.donated_all(
                old(self)@.receive_released(frame),
                final(self)@.rt.pool,
            ),
            done == old(self)@.receive_result(frame),
    {
        proof {
            old(self)@.rt.pool.lemma_donated_none();
        }
        if frame.protocol == IPPROTO_TCP {
            match TcpSegment::parse(frame.src_addr, frame.dst_addr, frame.payload) {
                Ok(segment) => self.tcp.receive_with(segment, isn, &mut self.rt),
                Err(e) => Err(e),
            }
        } else if frame.protocol == IPPROTO_UDP {
            match Datagram::parse(frame.src_addr, frame.dst_addr, frame.payload) {
                Ok(datagram) => self.udp.receive(
                    datagram.local,
                    datagram.remote,
                    datagram.payload,
                    &mut self.rt.wakes,
                ),
                Err(e) => Err(e),
            }
        } else {
            Err(Fail::Malformed { details: "Unknown protocol" })
        }
    }

    /// Takes in what came from the network with `frame`. A TCP handshake
    /// that a peer begins gets a sequence number drawn at random.
    pub fn receive(&mut self, frame: Frame) -> (done: Result<(), Fail>)
        requires
            old(self).wf(),
        ensures
            final(self).wf(),
            old(self)@.received(frame, final(self)@),
            done == old(self)@.receive_result(frame),
    {
        let isn = self.rt.rng_gen();
        self.receive_with(frame, isn)
    }

    /// Does the background work: the datagrams that wait at the UDP peer
    /// are queued for transmission, and the timers of the TCP connections
    /// are looked at.
    pub fn background(&mut self)
        requires
            old(self).wf(),
        ensures
            final(self).wf(),
            final(self)@ == old(self)@.background(),
    {
        let ghost waiting = self.udp@.outgoing;
        let ghost queued = self.rt@.outgoing;
        let ghost mut moved: int = 0;
        assert(queued + udp_packets(waiting.take(0)) =~= queued);
        assert(waiting.skip(0) =~= waiting);
        loop
            invariant_except_break
                self.udp@.outgoing == waiting.skip(moved),
            invariant
                0 <= moved <= waiting.len(),
                self.wf(),
                self.rt@ == (RuntimeView {
                    outgoing: queued + udp_packets(waiting.take(moved)),
                    ..old(self).rt@
                }),
                self.udp@ == (UdpView { outgoing: self.udp@.outgoing, ..old(self).udp@ }),
                self.tcp == old(self).tcp,
                self.file_table == old(self).file_table,
                queued == old(self).rt@.outgoing,
                waiting == old(self).udp@.outgoing,
            ensures
                moved == waiting.len(),
                self.udp@.outgoing == Seq::<OutgoingReq>::empty(),
            decreases waiting.len() - moved,
        {
            match self.udp.pop_outgoing() {
                None => {
                    assert(waiting.skip(moved).len() == waiting.len() - moved);
                    assert(self.udp@.outgoing =~= Seq::<OutgoingReq>::empty());
                    break ;
                },
                Some(request) => {
                    assert(waiting.skip(moved).len() == waiting.len() - moved);
                    assert(request == waiting[moved]);
                    self.rt.transmit(Packet::Udp(request));
                    proof {
                        assert(waiting.skip(moved).skip(1) =~= waiting.skip(moved + 1));
                        assert(udp_packets(waiting.take(moved)).push(Packet::Udp(request))
                            =~= udp_packets(waiting.take(moved + 1)));
                        assert((queued + udp_packets(waiting.take(moved))).push(
                            Packet::Udp(request),
                        ) =~= queued + udp_packets(waiting.take(moved + 1)));
                        moved = moved + 1;
                    }
                },
            }
        }
        assert(waiting.take(waiting.len() as int) =~= waiting);
        self.tcp.background(&mut self.rt);
    }
}

} // verus!
