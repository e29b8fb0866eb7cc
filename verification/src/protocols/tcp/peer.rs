//! The TCP peer: the sockets of the stack, the handshakes in progress and
//! the established connections.

use crate::collections::Table;
use crate::fail::Fail;
use crate::file_table::{
    is_full, lowest_vacant, sockets_open_as, File, FileDescriptor, FileTable,
};
use crate::protocols::ip::{EphemeralPorts, Port, PortsView};
use crate::protocols::ipv4::Endpoint;
use crate::operations::Poll;
use crate::protocols::tcp::receiver::{Delivery, Receiver, ReceiverState, ReceiverView};
use crate::protocols::tcp::segment::TcpSegment;
use crate::protocols::tcp::sender::{Retransmit, Sender, SenderState, SenderView};
use crate::protocols::tcp::{seq_add, seq_advance};
use crate::runtime::{
    woken_after,
    BufferPool,
    Packet,
    Runtime,
    RuntimeView,
    TcpOptions,
    WakeQueue,
};
use crate::sync::{Bytes, Waker};
use std::collections::VecDeque;
use vstd::prelude::*;

verus! {

/// Where a TCP socket stands.
#[allow(inconsistent_fields)]
#[derive(Clone, Copy, Debug, PartialEq, Eq, Structural)]
pub enum Socket {
    /// Open, and perhaps bound; neither listening nor connected.
    Inactive { local: Option<Endpoint> },
    /// Waiting for peers to connect.
    Listening { local: Endpoint },
    /// The SYN went out; the peer's answer is awaited.
    Connecting { local: Endpoint, remote: Endpoint },
    /// Connected.
    Established { local: Endpoint, remote: Endpoint },
}

/// The state of one established connection.
pub struct ControlBlock {
    pub local: Endpoint,
    pub remote: Endpoint,
    pub receiver: Receiver,
    pub sender: Sender,
}

/// A control block as plain values.
pub struct ControlBlockView {
    pub local: Endpoint,
    pub remote: Endpoint,
    pub receiver: ReceiverView,
    pub sender: SenderView,
}

impl View for ControlBlock {
    type V = ControlBlockView;

    open spec fn view(&self) -> ControlBlockView {
        ControlBlockView {
            local: self.local,
            remote: self.remote,
            receiver: self.receiver@,
            sender: self.sender@,
        }
    }
}

impl ControlBlock {
    /// Whether both halves of the connection keep their invariants.
    pub open spec fn wf(&self) -> bool {
        self.receiver.wf() && self.sender.wf()
    }

    /// The control block of a connection between `local` and `remote` whose
    /// handshake has just ended.
    pub fn new(
        local: Endpoint,
        remote: Endpoint,
        local_seq: u32,
        remote_seq: u32,
        remote_window: u16,
        options: &TcpOptions,
    ) -> (cb: ControlBlock)
        ensures
            cb.wf(),
            cb@ == ControlBlockView::fresh(
                local,
                remote,
                local_seq,
                remote_seq,
                remote_window,
                options.receive_window_size,
                options.window_scale,
            ),
    {
        ControlBlock {
            local,
            remote,
            receiver: Receiver::new(remote_seq, options.receive_window_size, options.window_scale),
            sender: Sender::new(local_seq, remote_window as u32),
        }
    }
}

impl ControlBlockView {
    pub open spec fn wf(self) -> bool {
        self.receiver.wf() && self.sender.wf()
    }

    /// The control block of a connection between `local` and `remote` whose
    /// handshake has just ended: the peer's first byte will have the
    /// sequence number `remote_seq`, ours `local_seq`.
    pub open spec fn fresh(
        local: Endpoint,
        remote: Endpoint,
        local_seq: u32,
        remote_seq: u32,
        remote_window: u16,
        receive_window: u32,
        window_scale: u8,
    ) -> ControlBlockView {
        ControlBlockView {
            local,
            remote,
            receiver: ReceiverView {
                state: ReceiverState::Open,
                base_seq_no: remote_seq,
                ack_seq_no: remote_seq,
                recv_seq_no: remote_seq,
                recv_queue: Seq::empty(),
                out_of_order: Map::empty(),
                ack_deadline: None,
                max_window_size: receive_window,
                window_scale,
                waker: None,
            },
            sender: SenderView {
                state: SenderState::Established,
                base_seq_no: local_seq,
                sent_seq_no: local_seq,
                unacked_queue: Seq::empty(),
                retransmit_deadline: None,
                window_size: remote_window as u32,
            },
        }
    }
}

impl ControlBlockView {
    /// The number that acknowledges everything that came in: the next byte
    /// expected, and one more once the peer's FIN has come.
    pub open spec fn ack_number(self) -> u32 {
        if self.receiver.state == ReceiverState::Open {
            self.receiver.recv_seq_no
        } else {
            seq_add(self.receiver.recv_seq_no, 1)
        }
    }

    /// Whether an acknowledgment is due at time `now`: the peer's FIN
    /// waits for one, or the deadline of the pending one has come.
    pub open spec fn ack_due(self, now: u64) -> bool {
        self.receiver.state == ReceiverState::ReceivedFin || (
        self.receiver.ack_deadline matches Some(deadline) && deadline <= now)
    }

    /// The segment that carries nothing but an acknowledgment.
    pub open spec fn ack_segment(self) -> TcpSegment {
        control_segment(
            self.local,
            self.remote,
            self.sender.sent_seq_no,
            self.ack_number(),
            false,
            true,
            false,
            advertised_window(self.receiver.window_size()),
        )
    }

    /// The receiver once its acknowledgment went out.
    pub open spec fn acknowledged(self) -> ReceiverView {
        ReceiverView {
            ack_deadline: None,
            ack_seq_no: self.receiver.recv_seq_no,
            state: if self.receiver.state == ReceiverState::ReceivedFin {
                ReceiverState::AckdFin
            } else {
                self.receiver.state
            },
            ..self.receiver
        }
    }

    /// The connection after its timers were looked at at time `now`.
    pub open spec fn tick(self, now: u64) -> ControlBlockView {
        ControlBlockView {
            receiver: if self.ack_due(now) {
                self.acknowledged()
            } else {
                self.receiver
            },
            sender: match self.sender.due(now) {
                Retransmit::Nothing => self.sender,
                _ => SenderView {
                    retransmit_deadline: Some(
                        crate::protocols::tcp::sender::retransmit_deadline_after(now),
                    ),
                    ..self.sender
                },
            },
            ..self
        }
    }

    /// The segments that go out when the timers are looked at at time
    /// `now`: the acknowledgment that is due, then what is sent again.
    pub open spec fn tick_segments(self, now: u64) -> Seq<Packet> {
        let acks = if self.ack_due(now) {
            seq![Packet::Tcp(self.ack_segment())]
        } else {
            Seq::empty()
        };
        let after = ControlBlockView {
            receiver: if self.ack_due(now) {
                self.acknowledged()
            } else {
                self.receiver
            },
            ..self
        };
        match self.sender.due(now) {
            Retransmit::Nothing => acks,
            Retransmit::Data(seq_num, payload) => acks.push(
                Packet::Tcp(
                    TcpSegment {
                        src: self.local,
                        dst: self.remote,
                        seq_num,
                        ack_num: after.ack_number(),
                        syn: false,
                        ack: true,
                        fin: false,
                        rst: false,
                        window_size: advertised_window(after.receiver.window_size()),
                        payload,
                    },
                ),
            ),
            Retransmit::Fin(seq_num) => acks.push(
                Packet::Tcp(
                    control_segment(
                        self.local,
                        self.remote,
                        seq_num,
                        after.ack_number(),
                        false,
                        true,
                        true,
                        advertised_window(after.receiver.window_size()),
                    ),
                ),
            ),
        }
    }

    /// Whether both directions of the connection are done with.
    pub open spec fn finished(self) -> bool {
        self.sender.state == SenderState::Closed && self.receiver.state
            == ReceiverState::AckdFin
    }

    /// The sender once it has seen the acknowledgment that `segment`
    /// carries, if it carries one.
    pub open spec fn acked(self, segment: TcpSegment, now: u64) -> SenderView {
        if segment.ack {
            self.sender.remote_ack(segment.ack_num, segment.window_size as u32, now)
        } else {
            self.sender
        }
    }

    /// What the data of `segment` does to the receiver. A segment without
    /// data leaves the receiver as it is.
    pub open spec fn delivery(self, segment: TcpSegment, now: u64) -> Delivery {
        if segment.payload@.len() > 0 {
            self.receiver.receive_data(segment.seq_num, segment.payload, now)
        } else {
            Delivery { receiver: self.receiver, result: Ok(()), dropped: None, woken: None }
        }
    }

    /// Whether `segment` ends the peer's stream: it carries a FIN, it
    /// arrived in its turn and its data, if it had any, was taken in.
    pub open spec fn ends_stream(self, segment: TcpSegment, now: u64) -> bool {
        &&& segment.fin
        &&& segment.seq_num == self.receiver.recv_seq_no
        &&& self.delivery(segment, now).result is Ok
    }

    /// The connection after `segment` came in at time `now`.
    pub open spec fn receive(self, segment: TcpSegment, now: u64) -> ControlBlockView {
        let delivered = self.delivery(segment, now).receiver;
        ControlBlockView {
            sender: self.acked(segment, now),
            receiver: if self.ends_stream(segment, now) {
                ReceiverView {
                    state: if delivered.state == ReceiverState::Open {
                        ReceiverState::ReceivedFin
                    } else {
                        delivered.state
                    },
                    waker: None,
                    ..delivered
                }
            } else {
                delivered
            },
            ..self
        }
    }

    /// The views that the connection lets go when `segment` comes in: the
    /// segments that it acknowledges in full, then the data of `segment`
    /// or a stored segment where the receiver had to drop one.
    pub open spec fn released(self, segment: TcpSegment, now: u64) -> Seq<Bytes> {
        let acked = if segment.ack {
            self.sender.acked_segments(segment.ack_num)
        } else {
            Seq::empty()
        };
        match self.delivery(segment, now).dropped {
            Some(dropped) => acked.push(dropped),
            None => acked,
        }
    }

    /// The queue of wake-ups after `segment` came in: the reader is woken
    /// by data that is taken in, and by the end of the stream.
    pub open spec fn wakes(self, segment: TcpSegment, now: u64, queue: Seq<u64>) -> Seq<u64> {
        let delivery = self.delivery(segment, now);
        let woken = woken_after(queue, delivery.woken);
        if self.ends_stream(segment, now) {
            woken_after(woken, delivery.receiver.waker)
        } else {
            woken
        }
    }
}

impl ControlBlock {
    /// The number that acknowledges everything that came in.
    pub fn ack_number(&self) -> (number: u32)
        ensures
            number == self@.ack_number(),
    {
        match self.receiver.state() {
            ReceiverState::Open => self.receiver.recv_seq_no(),
            _ => seq_advance(self.receiver.recv_seq_no(), 1),
        }
    }

    /// Whether both directions of the connection are done with.
    pub fn finished(&self) -> (done: bool)
        ensures
            done == self@.finished(),
    {
        self.sender.state() == SenderState::Closed && self.receiver.state()
            == ReceiverState::AckdFin
    }

    /// Looks at the timers of the connection at the time that `rt` tells:
    /// an acknowledgment that is due goes out, and what has waited too long
    /// for its own is sent again.
    pub fn tick(&mut self, rt: &mut Runtime)
        requires
            old(self).wf(),
        ensures
            final(self).wf(),
            final(self)@ == old(self)@.tick(old(rt)@.now),
            final(rt)@ == (RuntimeView {
                outgoing: old(rt)@.outgoing + old(self)@.tick_segments(old(rt)@.now),
                ..old(rt)@
            }),
    {
        let now = rt.now();
        let due = match self.receiver.state() {
            ReceiverState::ReceivedFin => true,
            _ => match self.receiver.ack_deadline() {
                Some(deadline) => deadline <= now,
                None => false,
            },
        };
        if due {
            let window = advertise(self.receiver.window_size());
            rt.transmit(
                Packet::Tcp(
                    control(
                        self.local,
                        self.remote,
                        self.sender.sent_seq_no(),
                        self.ack_number(),
                        false,
                        true,
                        false,
                        window,
                    ),
                ),
            );
            let acked = self.receiver.recv_seq_no();
            self.receiver.ack_sent(acked);
            self.receiver.fin_acked();
        }
        let ghost mid = rt@.outgoing;
        match self.sender.retransmit(now) {
            Retransmit::Nothing => {},
            Retransmit::Data(seq_num, payload) => {
                let window_size = advertise(self.receiver.window_size());
                rt.transmit(
                    Packet::Tcp(
                        TcpSegment {
                            src: self.local,
                            dst: self.remote,
                            seq_num,
                            ack_num: self.ack_number(),
                            syn: false,
                            ack: true,
                            fin: false,
                            rst: false,
                            window_size,
                            payload,
                        },
                    ),
                );
            },
            Retransmit::Fin(seq_num) => {
                let window = advertise(self.receiver.window_size());
                rt.transmit(
                    Packet::Tcp(
                        control(
                            self.local,
                            self.remote,
                            seq_num,
                            self.ack_number(),
                            false,
                            true,
                            true,
                            window,
                        ),
                    ),
                );
            },
        }
        assert(rt@.outgoing =~= old(rt)@.outgoing + old(self)@.tick_segments(old(rt)@.now));
    }

    /// Takes in a segment of this connection at time `now`: its
    /// acknowledgment goes to the sender, its data to the receiver, and a
    /// FIN that arrives in its turn ends the peer's stream. The outcome is
    /// that of the data.
    pub fn receive(
        &mut self,
        segment: TcpSegment,
        now: u64,
        pool: &mut BufferPool,
        wakes: &mut WakeQueue,
    ) -> (done: Result<(), Fail>)
        requires
            old(self).wf(),
        ensures
            final(self).wf(),
            final(self)@ == old(self)@.receive(segment, now),
            done == old(self)@.delivery(segment, now).result,
            final(wakes)@ == old(self)@.wakes(segment, now, old(wakes)@),
            old(pool)@.donated_all(old(self)@.released(segment, now), final(pool)@),
    {
        let ghost start = pool@;
        if segment.ack {
            let _ = self.sender.remote_ack(
                segment.ack_num,
                segment.window_size as u32,
                now,
                pool,
            );
        } else {
            proof {
                start.lemma_donated_none();
            }
        }
        let ghost mid = pool@;
        let in_turn = segment.seq_num == self.receiver.recv_seq_no();
        let fin = segment.fin;
        let done = if segment.payload.len() > 0 {
            self.receiver.receive_data(segment.seq_num, segment.payload, now, pool, wakes)
        } else {
            Ok(())
        };
        proof {
            match old(self)@.delivery(segment, now).dropped {
                Some(dropped) => {
                    let acked = if segment.ack {
                        old(self)@.sender.acked_segments(segment.ack_num)
                    } else {
                        Seq::empty()
                    };
                    start.lemma_donated_all_push(acked, mid, dropped, pool@);
                },
                None => {},
            }
        }
        if fin && in_turn && done.is_ok() {
            self.receiver.receive_fin();
            self.receiver.wake_reader(wakes);
        }
        done
    }
}

/// A handshake that a peer began and has not finished.
#[derive(Clone, Copy, Debug, PartialEq, Eq, Structural)]
pub struct Inflight {
    pub remote: Endpoint,
    /// The sequence number of our SYN.
    pub local_isn: u32,
    /// The sequence number of the peer's SYN.
    pub remote_isn: u32,
}

/// A handshake that this side began and the peer has not answered.
#[derive(Clone, Copy, Debug, PartialEq, Eq, Structural)]
pub struct Active {
    pub fd: FileDescriptor,
    pub local: Endpoint,
    pub remote: Endpoint,
    /// The sequence number of our SYN.
    pub local_isn: u32,
    /// The task that waits for the connection.
    pub waker: Option<Waker>,
}

/// A listening endpoint: the handshakes in progress, the connections that
/// wait to be accepted, and the task that waits for the next one.
pub struct Passive {
    pub max_backlog: usize,
    pub inflight: Vec<Inflight>,
    pub ready: VecDeque<ControlBlock>,
    pub waker: Option<Waker>,
}

/// A listening endpoint as plain values.
pub struct PassiveView {
    pub max_backlog: usize,
    pub inflight: Seq<Inflight>,
    pub ready: Seq<ControlBlockView>,
    pub waker: Option<Waker>,
}

impl View for Passive {
    type V = PassiveView;

    open spec fn view(&self) -> PassiveView {
        PassiveView {
            max_backlog: self.max_backlog,
            inflight: self.inflight@,
            ready: Seq::new(self.ready@.len(), |i: int| self.ready@[i]@),
            waker: self.waker,
        }
    }
}

impl Passive {
    pub open spec fn wf(&self) -> bool {
        forall|i: int| 0 <= i < self.ready@.len() ==> (#[trigger] self.ready@[i]).wf()
    }
}

/// Where in `inflight` the last handshake with `remote` stands, if there is
/// one.
pub open spec fn last_inflight(inflight: Seq<Inflight>, remote: Endpoint) -> Option<int>
    decreases inflight.len(),
{
    if inflight.len() == 0 {
        None
    } else if inflight.last().remote == remote {
        Some(inflight.len() - 1)
    } else {
        last_inflight(inflight.drop_last(), remote)
    }
}

/// Where a handshake that was found stands is a place in the list, and the
/// handshake there is one with `remote`.
pub proof fn lemma_last_inflight(inflight: Seq<Inflight>, remote: Endpoint)
    ensures
        match last_inflight(inflight, remote) {
            Some(i) => 0 <= i < inflight.len() && inflight[i].remote == remote,
            None => true,
        },
    decreases inflight.len(),
{
    if inflight.len() > 0 && inflight.last().remote != remote {
        lemma_last_inflight(inflight.drop_last(), remote);
    }
}

/// Looks for the last handshake with `remote`.
pub fn find_inflight(inflight: &Vec<Inflight>, remote: &Endpoint) -> (found: Option<usize>)
    ensures
        match found {
            Some(i) => last_inflight(inflight@, *remote) == Some(i as int) && i < inflight@.len(),
            None => last_inflight(inflight@, *remote) is None,
        },
{
    let mut i: usize = inflight.len();
    assert(inflight@.take(i as int) =~= inflight@);
    while i > 0
        invariant
            i <= inflight@.len(),
            last_inflight(inflight@, *remote) == last_inflight(inflight@.take(i as int), *remote),
        decreases i,
    {
        i = i - 1;
        let candidate = &inflight[i];
        assert(inflight@.take(i + 1).last() == inflight@[i as int]);
        assert(inflight@.take(i + 1).drop_last() =~= inflight@.take(i as int));
        if candidate.remote.addr == remote.addr && candidate.remote.port.value()
            == remote.port.value() {
            proof {
                crate::protocols::ip::lemma_port_is_its_number(candidate.remote.port, remote.port);
            }
            return Some(i);
        }
    }
    assert(inflight@.take(0) =~= Seq::<Inflight>::empty());
    None
}

/// Where in `ready` the last connection with `remote` waits, if one does.
pub open spec fn last_ready(ready: Seq<ControlBlockView>, remote: Endpoint) -> Option<int>
    decreases ready.len(),
{
    if ready.len() == 0 {
        None
    } else if ready.last().remote == remote {
        Some(ready.len() - 1)
    } else {
        last_ready(ready.drop_last(), remote)
    }
}

/// Looks for the last connection with `remote` among those that wait to be
/// accepted.
pub fn find_ready(passive: &Passive, remote: &Endpoint) -> (found: Option<usize>)
    ensures
        match found {
            Some(i) => last_ready(passive@.ready, *remote) == Some(i as int) && i
                < passive@.ready.len(),
            None => last_ready(passive@.ready, *remote) is None,
        },
{
    let mut i: usize = passive.ready.len();
    assert(passive@.ready.take(i as int) =~= passive@.ready);
    while i > 0
        invariant
            i <= passive@.ready.len(),
            passive@.ready.len() == passive.ready@.len(),
            last_ready(passive@.ready, *remote) == last_ready(
                passive@.ready.take(i as int),
                *remote,
            ),
        decreases i,
    {
        i = i - 1;
        let candidate = &passive.ready[i];
        assert(passive@.ready.take(i + 1).last() == passive@.ready[i as int]);
        assert(passive@.ready.take(i + 1).drop_last() =~= passive@.ready.take(i as int));
        if candidate.remote.addr == remote.addr && candidate.remote.port.value()
            == remote.port.value() {
            proof {
                crate::protocols::ip::lemma_port_is_its_number(candidate.remote.port, remote.port);
            }
            return Some(i);
        }
    }
    assert(passive@.ready.take(0) =~= Seq::<ControlBlockView>::empty());
    None
}

/// The number that stands for the connection between `local` and `remote`
/// where connections key a table.
pub open spec fn connection_key(local: Endpoint, remote: Endpoint) -> u128 {
    (local.spec_key() * 0x1_0000_0000_0000 + remote.spec_key()) as u128
}

/// The number that stands for the connection between `local` and `remote`.
pub fn conn_key(local: &Endpoint, remote: &Endpoint) -> (key: u128)
    ensures
        key == connection_key(*local, *remote),
{
    local.key() * 0x1_0000_0000_0000 + remote.key()
}

/// The window to advertise for `window` bytes of room: as much of it as the
/// header field can say.
pub open spec fn advertised_window(window: int) -> u16 {
    if window <= 0xffff {
        window as u16
    } else {
        0xffff
    }
}

/// The window to advertise for `window` bytes of room.
pub fn advertise(window: u32) -> (field: u16)
    ensures
        field == advertised_window(window as int),
{
    if window <= 0xffff {
        window as u16
    } else {
        0xffff
    }
}

/// A segment without data: the endpoints, the numbers and the flags.
pub open spec fn control_segment(
    src: Endpoint,
    dst: Endpoint,
    seq_num: u32,
    ack_num: u32,
    syn: bool,
    ack: bool,
    fin: bool,
    window_size: u16,
) -> TcpSegment {
    TcpSegment {
        src,
        dst,
        seq_num,
        ack_num,
        syn,
        ack,
        fin,
        rst: false,
        window_size,
        payload: Bytes::spec_empty(),
    }
}

/// A segment without data.
pub fn control(
    src: Endpoint,
    dst: Endpoint,
    seq_num: u32,
    ack_num: u32,
    syn: bool,
    ack: bool,
    fin: bool,
    window_size: u16,
) -> (segment: TcpSegment)
    ensures
        segment == control_segment(src, dst, seq_num, ack_num, syn, ack, fin, window_size),
{
    TcpSegment {
        src,
        dst,
        seq_num,
        ack_num,
        syn,
        ack,
        fin,
        rst: false,
        window_size,
        payload: Bytes::empty(),
    }
}

/// The TCP peer as plain values.
pub struct TcpView {
    /// The open sockets, by descriptor.
    pub sockets: Map<u128, Socket>,
    /// The listening endpoints, by the key of the endpoint.
    pub passive: Map<u128, PassiveView>,
    /// The handshakes that this side began, by the key of the connection.
    pub connecting: Map<u128, Active>,
    /// The established connections, by the key of the connection.
    pub established: Map<u128, ControlBlockView>,
    /// The ephemeral ports.
    pub ports: PortsView,
    /// The endpoints of the connections that were established, in the order
    /// in which the timers look at them.
    pub connections: Seq<(Endpoint, Endpoint)>,
}

/// The TCP sockets of the stack.
pub struct TcpPeer {
    sockets: Table<Socket>,
    passive: Table<Passive>,
    connecting: Table<Active>,
    established: Table<ControlBlock>,
    connections: Vec<(Endpoint, Endpoint)>,
    ports: EphemeralPorts,
}

impl View for TcpPeer {
    type V = TcpView;

    closed spec fn view(&self) -> TcpView {
        TcpView {
            sockets: self.sockets@,
            passive: Map::new(
                |key: u128| self.passive@.contains_key(key),
                |key: u128| self.passive@[key]@,
            ),
            connecting: self.connecting@,
            established: Map::new(
                |key: u128| self.established@.contains_key(key),
                |key: u128| self.established@[key]@,
            ),
            ports: self.ports@,
            connections: self.connections@,
        }
    }
}

impl TcpView {
    /// Whether the peer has no socket, no handshake and no connection, and
    /// every ephemeral port is free.
    pub open spec fn is_fresh(self) -> bool {
        self.is_fresh_from(crate::protocols::ip::FIRST_PRIVATE_PORT)
    }

    /// Whether the peer has no socket, no handshake and no connection, and
    /// every port from `first_port` on is free for its ephemeral ports.
    pub open spec fn is_fresh_from(self, first_port: u16) -> bool {
        &&& self.sockets == Map::<u128, Socket>::empty()
        &&& self.passive == Map::<u128, PassiveView>::empty()
        &&& self.connecting == Map::<u128, Active>::empty()
        &&& self.established == Map::<u128, ControlBlockView>::empty()
        &&& self.connections == Seq::<(Endpoint, Endpoint)>::empty()
        &&& self.ports.wf()
        &&& self.ports.first_port == first_port
        &&& forall|port: u16| self.ports.free.contains(port) <==> self.ports.in_range(port)
    }

    /// The socket behind `fd`, if `fd` is a TCP socket.
    pub open spec fn socket(self, fd: FileDescriptor) -> Option<Socket> {
        if self.sockets.contains_key(fd as u128) {
            Some(self.sockets[fd as u128])
        } else {
            None
        }
    }

    /// Whether `bind` takes the socket `fd` to an endpoint: the socket is
    /// open, unbound and idle.
    pub open spec fn can_bind(self, fd: FileDescriptor) -> bool {
        self.socket(fd) == Some(Socket::Inactive { local: None })
    }

    /// The peer after `bind`.
    pub open spec fn bind(self, fd: FileDescriptor, addr: Endpoint) -> TcpView {
        if self.can_bind(fd) {
            TcpView {
                sockets: self.sockets.insert(fd as u128, Socket::Inactive { local: Some(addr) }),
                ..self
            }
        } else {
            self
        }
    }

    /// The endpoint at which `listen` lets the socket `fd` wait for peers:
    /// the socket is bound and idle, and nobody listens there yet.
    pub open spec fn can_listen(self, fd: FileDescriptor) -> Option<Endpoint> {
        match self.socket(fd) {
            Some(Socket::Inactive { local: Some(local) }) => if self.passive.contains_key(
                local.spec_key(),
            ) {
                None
            } else {
                Some(local)
            },
            _ => None,
        }
    }

    /// The outcome of `listen`.
    pub open spec fn listen_result(self, fd: FileDescriptor) -> Result<(), Fail> {
        match self.socket(fd) {
            Some(Socket::Inactive { local: Some(local) }) => if self.passive.contains_key(
                local.spec_key(),
            ) {
                Err(Fail::Malformed { details: "Address in use" })
            } else {
                Ok(())
            },
            Some(Socket::Inactive { local: None }) => Err(
                Fail::Malformed { details: "Socket is not bound" },
            ),
            _ => Err(Fail::Malformed { details: "Invalid file descriptor" }),
        }
    }

    /// The peer after `listen`.
    pub open spec fn listen(self, fd: FileDescriptor, backlog: usize) -> TcpView {
        match self.can_listen(fd) {
            Some(local) => TcpView {
                sockets: self.sockets.insert(fd as u128, Socket::Listening { local }),
                passive: self.passive.insert(
                    local.spec_key(),
                    PassiveView {
                        max_backlog: backlog,
                        inflight: Seq::empty(),
                        ready: Seq::empty(),
                        waker: None,
                    },
                ),
                ..self
            },
            None => self,
        }
    }
}

impl TcpView {
    /// Whether every handshake that this side began belongs to a socket:
    /// the socket under its descriptor is connecting between the endpoints
    /// of the handshake, and the handshake stands under the key of those.
    pub open spec fn handshakes_have_sockets(self) -> bool {
        forall|key: u128| #[trigger]
            self.connecting.contains_key(key) ==> {
                let active = self.connecting[key];
                &&& self.sockets.contains_key(active.fd as u128)
                &&& self.sockets[active.fd as u128] == (Socket::Connecting {
                    local: active.local,
                    remote: active.remote,
                })
                &&& key == connection_key(active.local, active.remote)
            }
    }

    /// The endpoint from which `connect` reaches out for the socket `fd` to
    /// `remote`: the endpoint that the socket is bound to, or the lowest
    /// free ephemeral port at the address `addr`; or why it does not reach
    /// out.
    pub open spec fn connect_local(self, fd: FileDescriptor, remote: Endpoint, addr: u32) -> Result<
        Endpoint,
        Fail,
    > {
        match self.socket(fd) {
            Some(Socket::Inactive { local: Some(local) }) => if self.connecting.contains_key(
                connection_key(local, remote),
            ) || self.established.contains_key(connection_key(local, remote)) {
                Err(Fail::Malformed { details: "Connection already exists" })
            } else {
                Ok(local)
            },
            Some(Socket::Inactive { local: None }) => if self.ports.free == Set::<u16>::empty() {
                Err(Fail::ResourceExhausted { details: "Out of private ports" })
            } else {
                Ok(Endpoint { addr, port: Port::spec_from(self.ports.lowest_free()) })
            },
            _ => Err(Fail::Malformed { details: "Invalid file descriptor" }),
        }
    }

    /// The peer after `connect` with the first sequence number `isn`.
    pub open spec fn connect(
        self,
        fd: FileDescriptor,
        remote: Endpoint,
        isn: u32,
        addr: u32,
    ) -> TcpView {
        match self.connect_local(fd, remote, addr) {
            Ok(local) => TcpView {
                sockets: self.sockets.insert(fd as u128, Socket::Connecting { local, remote }),
                connecting: self.connecting.insert(
                    connection_key(local, remote),
                    Active { fd, local, remote, local_isn: isn, waker: None },
                ),
                ports: if self.socket(fd) == Some(Socket::Inactive { local: None }) {
                    self.ports.without(self.ports.lowest_free())
                } else {
                    self.ports
                },
                ..self
            },
            Err(_) => self,
        }
    }

    /// What waits to be transmitted after `connect` with the first sequence
    /// number `isn`: the SYN joins the queue where the handshake begins.
    pub open spec fn connect_outgoing(
        self,
        fd: FileDescriptor,
        remote: Endpoint,
        isn: u32,
        rt: RuntimeView,
    ) -> Seq<Packet> {
        match self.connect_local(fd, remote, rt.ipv4_addr) {
            Ok(local) => rt.outgoing.push(
                Packet::Tcp(
                    control_segment(
                        local,
                        remote,
                        isn,
                        0,
                        true,
                        false,
                        false,
                        advertised_window(rt.tcp_options.receive_window_size as int),
                    ),
                ),
            ),
            Err(_) => rt.outgoing,
        }
    }

    /// The outcome of `connect`.
    pub open spec fn connect_result(self, fd: FileDescriptor, remote: Endpoint, addr: u32) -> Result<
        (),
        Fail,
    > {
        match self.connect_local(fd, remote, addr) {
            Ok(_) => Ok(()),
            Err(e) => Err(e),
        }
    }

    /// The control block of the connection of the socket `fd`, where the
    /// socket is connected.
    pub open spec fn connection_of(self, fd: FileDescriptor) -> Option<u128> {
        match self.socket(fd) {
            Some(Socket::Established { local, remote }) => if self.established.contains_key(
                connection_key(local, remote),
            ) {
                Some(connection_key(local, remote))
            } else {
                None
            },
            _ => None,
        }
    }

    /// The outcome of `push`.
    pub open spec fn push_result(self, fd: FileDescriptor, buf: Bytes) -> Result<(), Fail> {
        match self.connection_of(fd) {
            Some(key) => match self.established[key].sender.send_result(buf) {
                Ok(_) => Ok(()),
                Err(e) => Err(e),
            },
            None => Err(Fail::Malformed { details: "Invalid file descriptor" }),
        }
    }

    /// The connection `cb` after it sent `buf` at time `now`: the data is
    /// in flight, and the acknowledgment of everything received rode along.
    pub open spec fn pushed(cb: ControlBlockView, buf: Bytes, now: u64) -> ControlBlockView {
        ControlBlockView {
            sender: cb.sender.send(buf, now),
            receiver: ReceiverView {
                ack_deadline: None,
                ack_seq_no: cb.receiver.recv_seq_no,
                ..cb.receiver
            },
            ..cb
        }
    }

    /// The peer after the timers of the connection under `key` were looked
    /// at at time `now`. A connection that is done with is removed.
    pub open spec fn tick(self, key: u128, now: u64) -> TcpView {
        if self.established.contains_key(key) {
            let cb = self.established[key].tick(now);
            TcpView {
                established: if cb.finished() {
                    self.established.remove(key)
                } else {
                    self.established.insert(key, cb)
                },
                ..self
            }
        } else {
            self
        }
    }

    /// The segments that go out when the timers of the connection under
    /// `key` are looked at.
    pub open spec fn tick_segments(self, key: u128, now: u64) -> Seq<Packet> {
        if self.established.contains_key(key) {
            self.established[key].tick_segments(now)
        } else {
            Seq::empty()
        }
    }

    /// The peer after the timers of its first `n` connections were looked
    /// at at time `now`, the last of them first. A connection that is gone
    /// leaves the list.
    pub open spec fn sweep(self, n: nat, now: u64) -> TcpView
        decreases n,
    {
        if n == 0 || n > self.connections.len() {
            self
        } else {
            let (local, remote) = self.connections[n - 1];
            let ticked = self.tick(connection_key(local, remote), now);
            let pruned = if ticked.established.contains_key(connection_key(local, remote)) {
                ticked
            } else {
                TcpView { connections: ticked.connections.remove(n - 1), ..ticked }
            };
            pruned.sweep((n - 1) as nat, now)
        }
    }

    /// The segments that go out in a sweep of the first `n` connections.
    pub open spec fn sweep_segments(self, n: nat, now: u64) -> Seq<Packet>
        decreases n,
    {
        if n == 0 || n > self.connections.len() {
            Seq::empty()
        } else {
            let (local, remote) = self.connections[n - 1];
            let ticked = self.tick(connection_key(local, remote), now);
            let pruned = if ticked.established.contains_key(connection_key(local, remote)) {
                ticked
            } else {
                TcpView { connections: ticked.connections.remove(n - 1), ..ticked }
            };
            self.tick_segments(connection_key(local, remote), now) + pruned.sweep_segments(
                (n - 1) as nat,
                now,
            )
        }
    }

    /// The segment in which the connection `cb` sends `buf`.
    pub open spec fn data_segment(cb: ControlBlockView, buf: Bytes) -> TcpSegment {
        TcpSegment {
            src: cb.local,
            dst: cb.remote,
            seq_num: cb.sender.sent_seq_no,
            ack_num: cb.ack_number(),
            syn: false,
            ack: true,
            fin: false,
            rst: false,
            window_size: advertised_window(cb.receiver.window_size()),
            payload: buf,
        }
    }

    /// The peer after `push`.
    pub open spec fn push(self, fd: FileDescriptor, buf: Bytes, now: u64) -> TcpView {
        if self.push_result(fd, buf) is Ok {
            let key = self.connection_of(fd)->Some_0;
            TcpView {
                established: self.established.insert(
                    key,
                    Self::pushed(self.established[key], buf, now),
                ),
                ..self
            }
        } else {
            self
        }
    }

    /// The peer after the socket `fd` accepted the connection that has
    /// waited longest at its endpoint, under the descriptor `new_fd`.
    pub open spec fn accepted(self, fd: FileDescriptor, new_fd: FileDescriptor) -> TcpView {
        let local = self.listener_of(fd)->Some_0;
        let passive = self.passive[local.spec_key()];
        let cb = passive.ready[0];
        TcpView {
            sockets: self.sockets.insert(
                new_fd as u128,
                Socket::Established { local: cb.local, remote: cb.remote },
            ),
            passive: self.passive.insert(
                local.spec_key(),
                PassiveView { ready: passive.ready.skip(1), ..passive },
            ),
            established: self.established.insert(connection_key(cb.local, cb.remote), cb),
            connections: self.connections.push((cb.local, cb.remote)),
            ..self
        }
    }

    /// The peer after a poll by `ctx` found no connection to accept at the
    /// endpoint of the socket `fd`.
    pub open spec fn awaiting_accept(self, fd: FileDescriptor, ctx: Waker) -> TcpView {
        let local = self.listener_of(fd)->Some_0;
        let passive = self.passive[local.spec_key()];
        TcpView {
            passive: self.passive.insert(
                local.spec_key(),
                PassiveView { waker: Some(ctx), ..passive },
            ),
            ..self
        }
    }

    /// The peer after the socket `fd` was closed at time `now`: the socket
    /// is gone, with the listener or the handshake that belonged to it; a
    /// connection stays until both directions are done with, its FIN sent.
    /// The port that the socket used goes back to the allocator.
    pub open spec fn close(self, fd: FileDescriptor, now: u64) -> TcpView {
        match self.socket(fd) {
            None => self,
            Some(Socket::Inactive { local }) => TcpView {
                sockets: self.sockets.remove(fd as u128),
                ..self
            },
            Some(Socket::Listening { local }) => TcpView {
                sockets: self.sockets.remove(fd as u128),
                passive: self.passive.remove(local.spec_key()),
                ..self
            },
            Some(Socket::Connecting { local, remote }) => TcpView {
                sockets: self.sockets.remove(fd as u128),
                connecting: self.connecting.remove(connection_key(local, remote)),
                ports: self.ports.with(local.port@),
                ..self
            },
            Some(Socket::Established { local, remote }) => TcpView {
                sockets: self.sockets.remove(fd as u128),
                established: if self.established.contains_key(connection_key(local, remote)) {
                    let cb = self.established[connection_key(local, remote)];
                    self.established.insert(
                        connection_key(local, remote),
                        ControlBlockView { sender: cb.sender.close(now), ..cb },
                    )
                } else {
                    self.established
                },
                ports: self.ports.with(local.port@),
                ..self
            },
        }
    }

    /// The FIN that `close` sends for the socket `fd`, where the socket has
    /// a connection whose sending direction is open.
    pub open spec fn close_segment(self, fd: FileDescriptor) -> Option<TcpSegment> {
        match self.connection_of(fd) {
            Some(key) => {
                let cb = self.established[key];
                if cb.sender.state == SenderState::Established {
                    Some(
                        control_segment(
                            cb.local,
                            cb.remote,
                            cb.sender.sent_seq_no,
                            cb.ack_number(),
                            false,
                            true,
                            true,
                            advertised_window(cb.receiver.window_size()),
                        ),
                    )
                } else {
                    None
                }
            },
            None => None,
        }
    }

    /// Whether `segment` is the answer that ends the handshake `active`: a
    /// SYN that acknowledges ours.
    pub open spec fn answers(active: Active, segment: TcpSegment) -> bool {
        segment.syn && segment.ack && segment.ack_num == seq_add(active.local_isn, 1)
    }

    /// The peer after `segment` ended the handshake under `key`: the
    /// connection is established and the socket knows it.
    pub open spec fn connected(
        self,
        key: u128,
        segment: TcpSegment,
        options: TcpOptions,
    ) -> TcpView {
        let active = self.connecting[key];
        TcpView {
            sockets: self.sockets.insert(
                active.fd as u128,
                Socket::Established { local: active.local, remote: active.remote },
            ),
            connecting: self.connecting.remove(key),
            established: self.established.insert(
                key,
                ControlBlockView::fresh(
                    active.local,
                    active.remote,
                    seq_add(active.local_isn, 1),
                    seq_add(segment.seq_num, 1),
                    segment.window_size,
                    options.receive_window_size,
                    options.window_scale,
                ),
            ),
            connections: self.connections.push((active.local, active.remote)),
            ..self
        }
    }

    /// What a poll for the end of the handshake of the socket `fd` finds.
    pub open spec fn poll_connect_result(self, fd: FileDescriptor) -> Poll<Result<(), Fail>> {
        match self.socket(fd) {
            Some(Socket::Established { .. }) => Poll::Ready(Ok(())),
            Some(Socket::Connecting { .. }) => Poll::Pending,
            _ => Poll::Ready(Err(Fail::Malformed { details: "Invalid file descriptor" })),
        }
    }

    /// The peer after a poll by `ctx` for the end of the handshake of the
    /// socket `fd`: where the handshake goes on, `ctx` waits for its end.
    pub open spec fn poll_connect(self, fd: FileDescriptor, ctx: Waker) -> TcpView {
        match self.socket(fd) {
            Some(Socket::Connecting { local, remote }) => if self.connecting.contains_key(
                connection_key(local, remote),
            ) {
                TcpView {
                    connecting: self.connecting.insert(
                        connection_key(local, remote),
                        Active {
                            waker: Some(ctx),
                            ..self.connecting[connection_key(local, remote)]
                        },
                    ),
                    ..self
                }
            } else {
                self
            },
            _ => self,
        }
    }

    /// What a poll for data on the socket `fd` finds.
    pub open spec fn poll_pop_result(self, fd: FileDescriptor) -> Poll<Result<Bytes, Fail>> {
        match self.connection_of(fd) {
            None => Poll::Ready(Err(Fail::Malformed { details: "Invalid file descriptor" })),
            Some(key) => match self.established[key].receiver.front() {
                Ok(Some(front)) => Poll::Ready(Ok(front)),
                Ok(None) => Poll::Pending,
                Err(e) => Poll::Ready(Err(e)),
            },
        }
    }

    /// The peer after a poll by `ctx` for data on the socket `fd`: the
    /// segment at the front of the queue is gone, or `ctx` waits for one.
    pub open spec fn poll_pop(self, fd: FileDescriptor, ctx: Waker) -> TcpView {
        match self.connection_of(fd) {
            None => self,
            Some(key) => {
                let cb = self.established[key];
                match cb.receiver.front() {
                    Ok(Some(front)) => TcpView {
                        established: self.established.insert(
                            key,
                            ControlBlockView { receiver: cb.receiver.pop(), ..cb },
                        ),
                        ..self
                    },
                    Ok(None) => TcpView {
                        established: self.established.insert(
                            key,
                            ControlBlockView {
                                receiver: ReceiverView { waker: Some(ctx), ..cb.receiver },
                                ..cb
                            },
                        ),
                        ..self
                    },
                    Err(e) => self,
                }
            },
        }
    }

    /// What a poll for a connection to accept on the socket `fd` finds,
    /// where `files` are the open descriptors.
    pub open spec fn poll_accept_result(self, fd: FileDescriptor, files: Map<u32, File>) -> Poll<
        Result<FileDescriptor, Fail>,
    > {
        match self.listener_of(fd) {
            None => Poll::Ready(Err(Fail::Malformed { details: "Socket not listening" })),
            Some(local) => if self.passive[local.spec_key()].ready.len() == 0 {
                Poll::Pending
            } else if is_full(files) {
                Poll::Ready(Err(Fail::ResourceExhausted { details: "Out of file descriptors" }))
            } else {
                Poll::Ready(Ok(lowest_vacant(files)))
            },
        }
    }

    /// The peer after a poll by `ctx` for a connection to accept on the
    /// socket `fd`.
    pub open spec fn poll_accept(
        self,
        fd: FileDescriptor,
        files: Map<u32, File>,
        ctx: Waker,
    ) -> TcpView {
        match self.poll_accept_result(fd, files) {
            Poll::Pending => self.awaiting_accept(fd, ctx),
            Poll::Ready(Ok(new_fd)) => self.accepted(fd, new_fd),
            Poll::Ready(Err(_)) => self,
        }
    }

    /// The open descriptors after a poll for a connection to accept on the
    /// socket `fd`.
    pub open spec fn poll_accept_files(self, fd: FileDescriptor, files: Map<u32, File>) -> Map<
        u32,
        File,
    > {
        match self.poll_accept_result(fd, files) {
            Poll::Ready(Ok(new_fd)) => files.insert(new_fd, File::TcpSocket),
            _ => files,
        }
    }

    /// The endpoint at which the socket `fd` listens, where it does.
    pub open spec fn listener_of(self, fd: FileDescriptor) -> Option<Endpoint> {
        match self.socket(fd) {
            Some(Socket::Listening { local }) => if self.passive.contains_key(local.spec_key()) {
                Some(local)
            } else {
                None
            },
            _ => None,
        }
    }
}

impl TcpPeer {
    /// Whether the peer keeps its invariant: its tables are sound, and so
    /// is every connection in them.
    pub closed spec fn wf(&self) -> bool {
        &&& self.sockets.wf()
        &&& self.passive.wf()
        &&& self.connecting.wf()
        &&& self.established.wf()
        &&& self.ports.wf()
        &&& forall|key: u128| #[trigger]
            self.established@.contains_key(key) ==> self.established@[key].wf()
        &&& forall|key: u128| #[trigger]
            self.passive@.contains_key(key) ==> self.passive@[key].wf()
        &&& self@.handshakes_have_sockets()
    }

    /// A peer with no socket, and every ephemeral port free.
    pub fn new() -> (peer: TcpPeer)
        ensures
            peer.wf(),
            peer@.is_fresh(),
    {
        TcpPeer::with_first_port(Port::first_private_port())
    }

    /// A peer with no socket, whose ephemeral ports are the ports from
    /// `first_port` on, all free.
    pub fn with_first_port(first_port: Port) -> (peer: TcpPeer)
        ensures
            peer.wf(),
            peer@.is_fresh_from(first_port@),
    {
        let peer = TcpPeer {
            sockets: Table::new(),
            passive: Table::new(),
            connecting: Table::new(),
            established: Table::new(),
            connections: Vec::new(),
            ports: EphemeralPorts::with_first_port(first_port),
        };
        assert(peer@.passive =~= Map::<u128, PassiveView>::empty());
        assert(peer@.established =~= Map::<u128, ControlBlockView>::empty());
        peer
    }

    /// Opens a socket: a descriptor of `file_table` that was not open.
    pub fn socket(&mut self, file_table: &mut FileTable) -> (opened: Result<FileDescriptor, Fail>)
        requires
            old(self).wf(),
            old(file_table).wf(),
            sockets_open_as(old(self)@.sockets, old(file_table)@, File::TcpSocket),
        ensures
            final(self).wf(),
            final(file_table).wf(),
            sockets_open_as(final(self)@.sockets, final(file_table)@, File::TcpSocket),
            match opened {
                Ok(fd) => {
                    &&& !old(file_table).full()
                    &&& fd == lowest_vacant(old(file_table)@)
                    &&& !old(file_table)@.contains_key(fd)
                    &&& !old(self)@.sockets.contains_key(fd as u128)
                    &&& final(file_table)@ == old(file_table)@.insert(fd, File::TcpSocket)
                    &&& final(self)@ == (TcpView {
                        sockets: old(self)@.sockets.insert(
                            fd as u128,
                            Socket::Inactive { local: None },
                        ),
                        ..old(self)@
                    })
                },
                Err(e) => {
                    &&& e == (Fail::ResourceExhausted { details: "Out of file descriptors" })
                    &&& old(file_table).full()
                    &&& final(file_table)@ == old(file_table)@
                    &&& final(self)@ == old(self)@
                },
            },
    {
        let fd = match file_table.alloc_fd(File::TcpSocket) {
            Ok(fd) => fd,
            Err(e) => {
                return Err(e);
            },
        };
        let _ = self.sockets.insert(fd as u128, Socket::Inactive { local: None });
        assert(self@.passive =~= old(self)@.passive);
        assert(self@.established =~= old(self)@.established);
        Ok(fd)
    }

    /// Binds the socket `fd` to the endpoint `addr`.
    pub fn bind(&mut self, fd: FileDescriptor, addr: Endpoint) -> (done: Result<(), Fail>)
        requires
            old(self).wf(),
        ensures
            final(self).wf(),
            final(self)@ == old(self)@.bind(fd, addr),
            done == (if old(self)@.can_bind(fd) {
                Ok(())
            } else {
                Err(Fail::Malformed { details: "Invalid file descriptor" })
            }),
    {
        match self.sockets.get(fd as u128) {
            Some(Socket::Inactive { local: None }) => {},
            _ => {
                return Err(Fail::Malformed { details: "Invalid file descriptor" });
            },
        }
        let _ = self.sockets.insert(fd as u128, Socket::Inactive { local: Some(addr) });
        assert(self@.passive =~= old(self)@.passive);
        assert(self@.established =~= old(self)@.established);
        Ok(())
    }

    /// Lets the socket `fd` wait for peers at the endpoint it is bound to,
    /// with room for `backlog` connections that are not accepted yet.
    pub fn listen(&mut self, fd: FileDescriptor, backlog: usize) -> (done: Result<(), Fail>)
        requires
            old(self).wf(),
        ensures
            final(self).wf(),
            final(self)@ == old(self)@.listen(fd, backlog),
            done == old(self)@.listen_result(fd),
    {
        let local = match self.sockets.get(fd as u128) {
            Some(Socket::Inactive { local: Some(local) }) => *local,
            Some(Socket::Inactive { local: None }) => {
                return Err(Fail::Malformed { details: "Socket is not bound" });
            },
            _ => {
                return Err(Fail::Malformed { details: "Invalid file descriptor" });
            },
        };
        if self.passive.contains_key(local.key()) {
            return Err(Fail::Malformed { details: "Address in use" });
        }
        let _ = self.sockets.insert(fd as u128, Socket::Listening { local });
        let passive = Passive {
            max_backlog: backlog,
            inflight: Vec::new(),
            ready: VecDeque::new(),
            waker: None,
        };
        assert(passive@.ready =~= Seq::<ControlBlockView>::empty());
        let _ = self.passive.insert(local.key(), passive);
        assert(self@.passive =~= old(self)@.listen(fd, backlog).passive);
        assert(self@.established =~= old(self)@.established);
        Ok(())
    }
}

impl TcpPeer {
    /// Begins the handshake for the socket `fd` with `remote`: the SYN,
    /// with the sequence number `isn`, is queued for transmission.
    pub fn connect_with(
        &mut self,
        fd: FileDescriptor,
        remote: Endpoint,
        isn: u32,
        rt: &mut Runtime,
    ) -> (done: Result<(), Fail>)
        requires
            old(self).wf(),
        ensures
            final(self).wf(),
            final(self)@ == old(self)@.connect(fd, remote, isn, old(rt)@.ipv4_addr),
            final(rt)@ == (RuntimeView {
                outgoing: old(self)@.connect_outgoing(fd, remote, isn, old(rt)@),
                ..old(rt)@
            }),
            done == old(self)@.connect_result(fd, remote, old(rt)@.ipv4_addr),
    {
        let local = match self.sockets.get(fd as u128) {
            Some(Socket::Inactive { local: Some(local) }) => {
                let local = *local;
                let key = conn_key(&local, &remote);
                if self.connecting.contains_key(key) || self.established.contains_key(key) {
                    return Err(Fail::Malformed { details: "Connection already exists" });
                }
                local
            },
            Some(Socket::Inactive { local: None }) => {
                match self.ports.alloc_port() {
                    Ok(port) => {
                        proof {
                            old(self)@.ports.lemma_lowest_free_is_unique(port@);
                            Port::lemma_spec_from(port@);
                            assert(old(self)@.ports.free.contains(port@));
                        }
                        Endpoint::new(rt.ipv4_addr, port)
                    },
                    Err(e) => {
                        return Err(e);
                    },
                }
            },
            _ => {
                return Err(Fail::Malformed { details: "Invalid file descriptor" });
            },
        };
        let key = conn_key(&local, &remote);
        let _ = self.sockets.insert(fd as u128, Socket::Connecting { local, remote });
        let _ = self.connecting.insert(
            key,
            Active { fd, local, remote, local_isn: isn, waker: None },
        );
        assert(self@.passive =~= old(self)@.passive);
        assert(self@.established =~= old(self)@.established);
        let window = advertise(rt.tcp_options.receive_window_size);
        rt.transmit(Packet::Tcp(control(local, remote, isn, 0, true, false, false, window)));
        Ok(())
    }

    /// Begins the handshake for the socket `fd` with `remote`, with a first
    /// sequence number drawn at random.
    pub fn connect(&mut self, fd: FileDescriptor, remote: Endpoint, rt: &mut Runtime) -> (done:
        Result<(), Fail>)
        requires
            old(self).wf(),
        ensures
            final(self).wf(),
            exists|isn: u32|
                final(self)@ == #[trigger] old(self)@.connect(
                    fd,
                    remote,
                    isn,
                    old(rt)@.ipv4_addr,
                ) && final(rt)@ == (RuntimeView {
                    outgoing: old(self)@.connect_outgoing(fd, remote, isn, old(rt)@),
                    ..old(rt)@
                }),
            done == old(self)@.connect_result(fd, remote, old(rt)@.ipv4_addr),
    {
        let isn = rt.rng_gen();
        self.connect_with(fd, remote, isn, rt)
    }

    /// Looks whether the handshake of the socket `fd` has ended, and leaves
    /// `ctx` to be woken by its end where it has not.
    pub fn poll_connect(&mut self, fd: FileDescriptor, ctx: &Waker) -> (polled: Poll<
        Result<(), Fail>,
    >)
        requires
            old(self).wf(),
        ensures
            final(self).wf(),
            final(self)@ == old(self)@.poll_connect(fd, *ctx),
            polled == old(self)@.poll_connect_result(fd),
    {
        match self.sockets.get(fd as u128) {
            Some(Socket::Established { .. }) => Poll::Ready(Ok(())),
            Some(Socket::Connecting { local, remote }) => {
                let key = conn_key(local, remote);
                match self.connecting.get(key) {
                    Some(active) => {
                        let waiting = Active {
                            fd: active.fd,
                            local: active.local,
                            remote: active.remote,
                            local_isn: active.local_isn,
                            waker: Some(*ctx),
                        };
                        let _ = self.connecting.insert(key, waiting);
                        assert(self@.passive =~= old(self)@.passive);
                        assert(self@.established =~= old(self)@.established);
                    },
                    None => {},
                }
                Poll::Pending
            },
            _ => Poll::Ready(Err(Fail::Malformed { details: "Invalid file descriptor" })),
        }
    }
}

impl TcpPeer {
    /// Sends `buf` on the connection of the socket `fd`: the segment is
    /// queued for transmission, and a view of `buf` is kept until the peer
    /// has acknowledged it.
    pub fn push(&mut self, fd: FileDescriptor, buf: Bytes, rt: &mut Runtime) -> (done: Result<
        (),
        Fail,
    >)
        requires
            old(self).wf(),
        ensures
            final(self).wf(),
            done == old(self)@.push_result(fd, buf),
            final(self)@ == old(self)@.push(fd, buf, old(rt)@.now),
            final(rt)@ == (RuntimeView {
                outgoing: if done is Ok {
                    old(rt)@.outgoing.push(
                        Packet::Tcp(
                            TcpView::data_segment(
                                old(self)@.established[old(self)@.connection_of(fd)->Some_0],
                                buf,
                            ),
                        ),
                    )
                } else {
                    old(rt)@.outgoing
                },
                ..old(rt)@
            }),
    {
        let key = match self.sockets.get(fd as u128) {
            Some(Socket::Established { local, remote }) => conn_key(local, remote),
            _ => {
                return Err(Fail::Malformed { details: "Invalid file descriptor" });
            },
        };
        let mut cb = match self.established.remove(key) {
            Some(cb) => cb,
            None => {
                assert(self@.established =~= old(self)@.established);
                assert(self@.passive =~= old(self)@.passive);
                return Err(Fail::Malformed { details: "Invalid file descriptor" });
            },
        };
        let ghost before = cb@;
        let now = rt.now();
        let sent = cb.sender.send(&buf, now);
        let done = match sent {
            Ok(seq_num) => {
                let ack_num = cb.ack_number();
                let window_size = advertise(cb.receiver.window_size());
                let acked = cb.receiver.recv_seq_no();
                cb.receiver.ack_sent(acked);
                rt.transmit(
                    Packet::Tcp(
                        TcpSegment {
                            src: cb.local,
                            dst: cb.remote,
                            seq_num,
                            ack_num,
                            syn: false,
                            ack: true,
                            fin: false,
                            rst: false,
                            window_size,
                            payload: buf,
                        },
                    ),
                );
                Ok(())
            },
            Err(e) => Err(e),
        };
        let _ = self.established.insert(key, cb);
        assert(self@.established =~= old(self)@.push(fd, buf, old(rt)@.now).established);
        assert(self@.passive =~= old(self)@.passive);
        done
    }

    /// Hands out the segment at the front of the receive queue of the
    /// socket `fd`, or leaves `ctx` to be woken when one arrives.
    pub fn poll_pop(&mut self, fd: FileDescriptor, ctx: &Waker) -> (polled: Poll<
        Result<Bytes, Fail>,
    >)
        requires
            old(self).wf(),
        ensures
            final(self).wf(),
            final(self)@ == old(self)@.poll_pop(fd, *ctx),
            polled == old(self)@.poll_pop_result(fd),
    {
        let key = match self.sockets.get(fd as u128) {
            Some(Socket::Established { local, remote }) => conn_key(local, remote),
            _ => {
                return Poll::Ready(Err(Fail::Malformed { details: "Invalid file descriptor" }));
            },
        };
        let mut cb = match self.established.remove(key) {
            Some(cb) => cb,
            None => {
                assert(self@.established =~= old(self)@.established);
                assert(self@.passive =~= old(self)@.passive);
                return Poll::Ready(Err(Fail::Malformed { details: "Invalid file descriptor" }));
            },
        };
        let ghost before = cb@;
        let polled = cb.receiver.poll_recv(ctx);
        let _ = self.established.insert(key, cb);
        proof {
            assert(self@.passive =~= old(self)@.passive);
            match before.receiver.front() {
                Ok(Some(front)) => {
                    assert(self@.established =~= old(self)@.established.insert(
                        key,
                        ControlBlockView { receiver: before.receiver.pop(), ..before },
                    ));
                },
                Ok(None) => {
                    assert(self@.established =~= old(self)@.established.insert(
                        key,
                        ControlBlockView {
                            receiver: ReceiverView { waker: Some(*ctx), ..before.receiver },
                            ..before
                        },
                    ));
                },
                Err(e) => {
                    assert(self@.established =~= old(self)@.established);
                },
            }
        }
        polled
    }
}

/// The queue of packets after `segment`, if any, joined it.
pub open spec fn with_segment(outgoing: Seq<Packet>, segment: Option<TcpSegment>) -> Seq<Packet> {
    match segment {
        Some(s) => outgoing.push(Packet::Tcp(s)),
        None => outgoing,
    }
}

impl TcpPeer {
    /// Accepts the connection that has waited longest at the endpoint of
    /// the socket `fd`, under a descriptor of `file_table` that was not
    /// open; or leaves `ctx` to be woken when a handshake ends there.
    pub fn poll_accept(
        &mut self,
        fd: FileDescriptor,
        file_table: &mut FileTable,
        ctx: &Waker,
    ) -> (polled:
        Poll<Result<FileDescriptor, Fail>>)
        requires
            old(self).wf(),
            old(file_table).wf(),
            sockets_open_as(old(self)@.sockets, old(file_table)@, File::TcpSocket),
        ensures
            final(self).wf(),
            final(file_table).wf(),
            final(self)@ == old(self)@.poll_accept(fd, old(file_table)@, *ctx),
            polled == old(self)@.poll_accept_result(fd, old(file_table)@),
            final(file_table)@ == old(self)@.poll_accept_files(fd, old(file_table)@),
            sockets_open_as(final(self)@.sockets, final(file_table)@, File::TcpSocket),
            polled matches Poll::Ready(Ok(new_fd)) ==> {
                &&& !old(file_table)@.contains_key(new_fd)
                &&& !old(self)@.sockets.contains_key(new_fd as u128)
            },
    {
        let local = match self.sockets.get(fd as u128) {
            Some(Socket::Listening { local }) => *local,
            _ => {
                return Poll::Ready(Err(Fail::Malformed { details: "Socket not listening" }));
            },
        };
        let mut passive = match self.passive.remove(local.key()) {
            Some(passive) => passive,
            None => {
                assert(self@.established =~= old(self)@.established);
                assert(self@.passive =~= old(self)@.passive);
                return Poll::Ready(Err(Fail::Malformed { details: "Socket not listening" }));
            },
        };
        let ghost before = passive@;
        if passive.ready.len() == 0 {
            passive.waker = Some(*ctx);
            assert(passive@.ready =~= before.ready);
            let _ = self.passive.insert(local.key(), passive);
            assert(self@.established =~= old(self)@.established);
            assert(self@.passive =~= old(self)@.awaiting_accept(fd, *ctx).passive);
            return Poll::Pending;
        }
        let new_fd = match file_table.alloc_fd(File::TcpSocket) {
            Ok(new_fd) => new_fd,
            Err(e) => {
                let _ = self.passive.insert(local.key(), passive);
                assert(self@.established =~= old(self)@.established);
                assert(self@.passive =~= old(self)@.passive);
                return Poll::Ready(Err(e));
            },
        };
        let cb = passive.ready.pop_front().unwrap();
        assert(passive@.ready =~= before.ready.skip(1));
        let key = conn_key(&cb.local, &cb.remote);
        let _ = self.sockets.insert(
            new_fd as u128,
            Socket::Established { local: cb.local, remote: cb.remote },
        );
        self.connections.push((cb.local, cb.remote));
        let _ = self.established.insert(key, cb);
        let _ = self.passive.insert(local.key(), passive);
        assert(self@.established =~= old(self)@.accepted(fd, new_fd).established);
        assert(self@.passive =~= old(self)@.accepted(fd, new_fd).passive);
        Poll::Ready(Ok(new_fd))
    }

    /// Closes the socket `fd`: its descriptor is freed and its port goes
    /// back to the allocator. A connection sends its FIN and stays until
    /// both directions are done with.
    pub fn close(
        &mut self,
        fd: FileDescriptor,
        file_table: &mut FileTable,
        rt: &mut Runtime,
    ) -> (done:
        Result<(), Fail>)
        requires
            old(self).wf(),
            old(file_table).wf(),
        ensures
            final(self).wf(),
            final(file_table).wf(),
            final(self)@ == old(self)@.close(fd, old(rt)@.now),
            sockets_open_as(old(self)@.sockets, old(file_table)@, File::TcpSocket)
                ==> sockets_open_as(final(self)@.sockets, final(file_table)@, File::TcpSocket),
            final(rt)@ == (RuntimeView {
                outgoing: with_segment(old(rt)@.outgoing, old(self)@.close_segment(fd)),
                ..old(rt)@
            }),
            old(self)@.socket(fd) is Some ==> done == Ok::<(), Fail>(()) && final(file_table)@
                == old(file_table)@.remove(fd),
            old(self)@.socket(fd) is None ==> done == Err::<(), Fail>(
                Fail::Malformed { details: "Invalid file descriptor" },
            ) && final(file_table)@ == old(file_table)@,
    {
        let socket = match self.sockets.remove(fd as u128) {
            Some(socket) => socket,
            None => {
                assert(self@.sockets =~= old(self)@.sockets);
                assert(self@.established =~= old(self)@.established);
                assert(self@.passive =~= old(self)@.passive);
                return Err(Fail::Malformed { details: "Invalid file descriptor" });
            },
        };
        let _ = file_table.free(fd);
        match socket {
            Socket::Inactive { local } => {
                assert(self@.established =~= old(self)@.established);
                assert(self@.passive =~= old(self)@.passive);
            },
            Socket::Listening { local } => {
                let _ = self.passive.remove(local.key());
                assert(self@.established =~= old(self)@.established);
                assert(self@.passive =~= old(self)@.passive.remove(local.spec_key()));
            },
            Socket::Connecting { local, remote } => {
                let _ = self.connecting.remove(conn_key(&local, &remote));
                self.ports.free(local.port);
                assert(self@.established =~= old(self)@.established);
                assert(self@.passive =~= old(self)@.passive);
            },
            Socket::Established { local, remote } => {
                let key = conn_key(&local, &remote);
                self.ports.free(local.port);
                match self.established.remove(key) {
                    Some(cb) => {
                        let mut cb = cb;
                        let ghost before = cb@;
                        let now = rt.now();
                        match cb.sender.close(now) {
                            Ok(seq_num) => {
                                let ack_num = cb.ack_number();
                                let window_size = advertise(cb.receiver.window_size());
                                rt.transmit(
                                    Packet::Tcp(
                                        control(
                                            cb.local,
                                            cb.remote,
                                            seq_num,
                                            ack_num,
                                            false,
                                            true,
                                            true,
                                            window_size,
                                        ),
                                    ),
                                );
                            },
                            Err(_) => {},
                        }
                        let _ = self.established.insert(key, cb);
                        assert(self@.established =~= old(self)@.close(
                            fd,
                            old(rt)@.now,
                        ).established);
                    },
                    None => {
                        assert(self@.established =~= old(self)@.established);
                    },
                }
                assert(self@.passive =~= old(self)@.passive);
            },
        }
        Ok(())
    }
}

/// What a segment does at a listening endpoint.
pub enum PassiveStep {
    /// A peer began a handshake: it is noted, and our SYN answers.
    Begin,
    /// A peer sent its SYN again: our SYN answers again. The place of the
    /// handshake in the list is given.
    Again(int),
    /// A peer ended its handshake: the connection waits to be accepted. The
    /// place of the handshake in the list is given.
    End(int),
    /// The segment belongs to a connection that waits to be accepted. The
    /// place of the connection in the queue is given.
    Deliver(int),
    /// Too many connections wait already.
    Full,
    /// The segment belongs to no handshake and to no connection.
    Stray,
}

impl PassiveView {
    /// What `segment` does at this endpoint.
    pub open spec fn step(self, segment: TcpSegment) -> PassiveStep {
        let found = last_inflight(self.inflight, segment.src);
        if segment.syn && !segment.ack {
            match found {
                Some(i) => PassiveStep::Again(i),
                None => if self.inflight.len() + self.ready.len() >= self.max_backlog {
                    PassiveStep::Full
                } else {
                    PassiveStep::Begin
                },
            }
        } else if !segment.syn {
            if self.ends_handshake(segment) {
                PassiveStep::End(found->Some_0)
            } else {
                match last_ready(self.ready, segment.src) {
                    Some(j) => PassiveStep::Deliver(j),
                    None => PassiveStep::Stray,
                }
            }
        } else {
            PassiveStep::Stray
        }
    }

    /// Whether `segment` ends a handshake that is in progress here: it
    /// acknowledges our SYN.
    pub open spec fn ends_handshake(self, segment: TcpSegment) -> bool {
        segment.ack && !segment.syn && (last_inflight(self.inflight, segment.src) matches Some(i)
            && segment.ack_num == seq_add(self.inflight[i].local_isn, 1))
    }

    /// The outcome of `segment` at this endpoint at time `now`.
    pub open spec fn result(self, segment: TcpSegment, now: u64) -> Result<(), Fail> {
        match self.step(segment) {
            PassiveStep::Full => Err(Fail::ResourceExhausted { details: "Backlog full" }),
            PassiveStep::Stray => Err(
                Fail::Ignored { details: "Unexpected segment in handshake" },
            ),
            PassiveStep::Deliver(j) => self.ready[j].delivery(segment, now).result,
            _ => Ok(()),
        }
    }

    /// The endpoint after `segment` came in at time `now`, where a
    /// handshake that begins gets the sequence number `isn`.
    pub open spec fn receive(
        self,
        segment: TcpSegment,
        isn: u32,
        now: u64,
        options: TcpOptions,
    ) -> PassiveView {
        match self.step(segment) {
            PassiveStep::Deliver(j) => PassiveView {
                ready: self.ready.update(j, self.ready[j].receive(segment, now)),
                ..self
            },
            PassiveStep::Begin => PassiveView {
                inflight: self.inflight.push(
                    Inflight { remote: segment.src, local_isn: isn, remote_isn: segment.seq_num },
                ),
                ..self
            },
            PassiveStep::End(i) => PassiveView {
                inflight: self.inflight.remove(i),
                ready: self.ready.push(
                    ControlBlockView::fresh(
                        segment.dst,
                        segment.src,
                        seq_add(self.inflight[i].local_isn, 1),
                        seq_add(self.inflight[i].remote_isn, 1),
                        segment.window_size,
                        options.receive_window_size,
                        options.window_scale,
                    ),
                ),
                waker: None,
                ..self
            },
            _ => self,
        }
    }

    /// The segment that answers `segment`, if one does.
    pub open spec fn answer(self, segment: TcpSegment, isn: u32, options: TcpOptions) -> Option<
        TcpSegment,
    > {
        match self.step(segment) {
            PassiveStep::Begin => Some(
                control_segment(
                    segment.dst,
                    segment.src,
                    isn,
                    seq_add(segment.seq_num, 1),
                    true,
                    true,
                    false,
                    advertised_window(options.receive_window_size as int),
                ),
            ),
            PassiveStep::Again(i) => Some(
                control_segment(
                    segment.dst,
                    segment.src,
                    self.inflight[i].local_isn,
                    seq_add(self.inflight[i].remote_isn, 1),
                    true,
                    true,
                    false,
                    advertised_window(options.receive_window_size as int),
                ),
            ),
            _ => None,
        }
    }

    /// The queue of wake-ups after `segment` came in: the end of a
    /// handshake wakes the task that waits to accept, and data wakes the
    /// reader of its connection.
    pub open spec fn wakes(self, segment: TcpSegment, now: u64, queue: Seq<u64>) -> Seq<u64> {
        match self.step(segment) {
            PassiveStep::End(_) => woken_after(queue, self.waker),
            PassiveStep::Deliver(j) => self.ready[j].wakes(segment, now, queue),
            _ => queue,
        }
    }

    /// The views that the endpoint lets go when `segment` comes in.
    pub open spec fn released(self, segment: TcpSegment, now: u64) -> Seq<Bytes> {
        match self.step(segment) {
            PassiveStep::Deliver(j) => self.ready[j].released(segment, now),
            _ => Seq::empty(),
        }
    }
}

impl Passive {
    /// Takes in a segment for this listening endpoint at time `now`. It
    /// begins or ends a handshake, or goes to the connection that it
    /// belongs to among those that wait to be accepted.
    pub fn receive(
        &mut self,
        segment: TcpSegment,
        isn: u32,
        now: u64,
        options: &TcpOptions,
        pool: &mut BufferPool,
        wakes: &mut WakeQueue,
    ) -> (done: (Result<(), Fail>, Option<TcpSegment>))
        requires
            old(self).wf(),
        ensures
            final(self).wf(),
            final(self)@ == old(self)@.receive(segment, isn, now, *options),
            done.0 == old(self)@.result(segment, now),
            done.1 == old(self)@.answer(segment, isn, *options),
            final(wakes)@ == old(self)@.wakes(segment, now, old(wakes)@),
            old(pool)@.donated_all(old(self)@.released(segment, now), final(pool)@),
    {
        proof {
            old(pool)@.lemma_donated_none();
            lemma_last_inflight(self@.inflight, segment.src);
        }
        let found = find_inflight(&self.inflight, &segment.src);
        let window = advertise(options.receive_window_size);
        if segment.syn && !segment.ack {
            match found {
                Some(i) => {
                    let known = self.inflight[i];
                    let answer = control(
                        segment.dst,
                        segment.src,
                        known.local_isn,
                        seq_advance(known.remote_isn, 1),
                        true,
                        true,
                        false,
                        window,
                    );
                    (Ok(()), Some(answer))
                },
                None => {
                    if self.inflight.len() >= self.max_backlog || self.ready.len()
                        >= self.max_backlog - self.inflight.len() {
                        return (Err(Fail::ResourceExhausted { details: "Backlog full" }), None);
                    }
                    self.inflight.push(
                        Inflight {
                            remote: segment.src,
                            local_isn: isn,
                            remote_isn: segment.seq_num,
                        },
                    );
                    let answer = control(
                        segment.dst,
                        segment.src,
                        isn,
                        seq_advance(segment.seq_num, 1),
                        true,
                        true,
                        false,
                        window,
                    );
                    assert(self@.ready =~= old(self)@.ready);
                    (Ok(()), Some(answer))
                },
            }
        } else if !segment.syn {
            let ends = match found {
                Some(i) => segment.ack && segment.ack_num == seq_advance(
                    self.inflight[i].local_isn,
                    1,
                ),
                None => false,
            };
            if ends {
                let i = found.unwrap();
                let known = self.inflight[i];
                let _ = self.inflight.remove(i);
                let cb = ControlBlock::new(
                    segment.dst,
                    segment.src,
                    seq_advance(known.local_isn, 1),
                    seq_advance(known.remote_isn, 1),
                    segment.window_size,
                    options,
                );
                self.ready.push_back(cb);
                wakes.wake_if(self.waker.take());
                assert(self@.ready =~= old(self)@.receive(segment, isn, now, *options).ready);
                return (Ok(()), None);
            }
            match find_ready(self, &segment.src) {
                Some(j) => {
                    let ghost before = self.ready@;
                    let mut cb = self.ready.remove(j).unwrap();
                    let done = cb.receive(segment, now, pool, wakes);
                    self.ready.insert(j, cb);
                    proof {
                        assert(self.ready@ =~= before.update(j as int, cb));
                        assert(self@.ready =~= old(self)@.receive(
                            segment,
                            isn,
                            now,
                            *options,
                        ).ready);
                        assert forall|i: int| 0 <= i < self.ready@.len() implies (
                        #[trigger] self.ready@[i]).wf() by {
                            if i != j {
                                assert(self.ready@[i] == before[i]);
                            }
                        }
                    }
                    (done, None)
                },
                None => (Err(Fail::Ignored { details: "Unexpected segment in handshake" }), None),
            }
        } else {
            (Err(Fail::Ignored { details: "Unexpected segment in handshake" }), None)
        }
    }
}

/// Where a segment that came in belongs.
pub enum Route {
    /// To the established connection with the key.
    Established(u128),
    /// To the handshake with the key, which this side began.
    Connecting(u128),
    /// To the listening endpoint with the key.
    Listening(u128),
    /// Nowhere.
    Nowhere,
}

impl TcpView {
    /// What the peer sends on a connection is what the socket pops: where
    /// the connection of the socket `fd` has nothing to read and `segment`
    /// brings the bytes that it expects next, as many as its window takes,
    /// a poll for data on the socket hands out the bytes of `segment`,
    /// whole and unchanged.
    pub proof fn lemma_delivered_bytes_are_popped(
        self,
        fd: FileDescriptor,
        segment: TcpSegment,
        isn: u32,
        now: u64,
        options: TcpOptions,
    )
        requires
            self.connection_of(fd) == Some(connection_key(segment.dst, segment.src)),
            ({
                let receiver = self.established[connection_key(segment.dst, segment.src)].receiver;
                &&& receiver.wf()
                &&& receiver.state == ReceiverState::Open
                &&& receiver.recv_queue.len() == 0
                &&& segment.seq_num == receiver.recv_seq_no
                &&& 0 < segment.payload@.len() <= receiver.max_window_size
            }),
        ensures
            self.receive(segment, isn, now, options).poll_pop_result(fd) == Poll::Ready(
                Ok::<Bytes, Fail>(segment.payload),
            ),
    {
        let key = connection_key(segment.dst, segment.src);
        let cb = self.established[key];
        cb.receiver.lemma_delivered_segment_is_read(segment.payload, now);
        let after = self.receive(segment, isn, now, options);
        assert(after.established[key] == cb.receive(segment, now));
        assert(after.sockets == self.sockets);
        assert(after.connection_of(fd) == Some(key));
    }

    /// Where `segment` belongs: a connection comes before a handshake, and
    /// a handshake before a listener.
    pub open spec fn route(self, segment: TcpSegment) -> Route {
        let key = connection_key(segment.dst, segment.src);
        if self.established.contains_key(key) {
            Route::Established(key)
        } else if self.connecting.contains_key(key) {
            Route::Connecting(key)
        } else if self.passive.contains_key(segment.dst.spec_key()) {
            Route::Listening(segment.dst.spec_key())
        } else {
            Route::Nowhere
        }
    }

    /// The peer after `segment` came in at time `now`, where a handshake
    /// that a peer begins gets the sequence number `isn`.
    pub open spec fn receive(
        self,
        segment: TcpSegment,
        isn: u32,
        now: u64,
        options: TcpOptions,
    ) -> TcpView {
        match self.route(segment) {
            Route::Established(key) => TcpView {
                established: self.established.insert(
                    key,
                    self.established[key].receive(segment, now),
                ),
                ..self
            },
            Route::Connecting(key) => if Self::answers(self.connecting[key], segment) {
                self.connected(key, segment, options)
            } else {
                self
            },
            Route::Listening(key) => TcpView {
                passive: self.passive.insert(
                    key,
                    self.passive[key].receive(segment, isn, now, options),
                ),
                ..self
            },
            Route::Nowhere => self,
        }
    }

    /// The outcome of `segment`.
    pub open spec fn receive_result(self, segment: TcpSegment, now: u64) -> Result<(), Fail> {
        match self.route(segment) {
            Route::Established(key) => self.established[key].delivery(segment, now).result,
            Route::Connecting(key) => if Self::answers(self.connecting[key], segment) {
                Ok(())
            } else {
                Err(Fail::Ignored { details: "Unexpected segment in handshake" })
            },
            Route::Listening(key) => self.passive[key].result(segment, now),
            Route::Nowhere => Err(Fail::Malformed { details: "No socket for segment" }),
        }
    }

    /// The segment that answers `segment`, if one does.
    pub open spec fn receive_answer(
        self,
        segment: TcpSegment,
        isn: u32,
        options: TcpOptions,
    ) -> Option<
        TcpSegment,
    > {
        match self.route(segment) {
            Route::Connecting(key) => if Self::answers(self.connecting[key], segment) {
                Some(
                    control_segment(
                        self.connecting[key].local,
                        self.connecting[key].remote,
                        seq_add(self.connecting[key].local_isn, 1),
                        seq_add(segment.seq_num, 1),
                        false,
                        true,
                        false,
                        advertised_window(options.receive_window_size as int),
                    ),
                )
            } else {
                None
            },
            Route::Listening(key) => self.passive[key].answer(segment, isn, options),
            _ => None,
        }
    }

    /// The queue of wake-ups after `segment` came in.
    pub open spec fn receive_wakes(
        self,
        segment: TcpSegment,
        now: u64,
        queue: Seq<u64>,
    ) -> Seq<u64> {
        match self.route(segment) {
            Route::Established(key) => self.established[key].wakes(segment, now, queue),
            Route::Connecting(key) => if Self::answers(self.connecting[key], segment) {
                woken_after(queue, self.connecting[key].waker)
            } else {
                queue
            },
            Route::Listening(key) => self.passive[key].wakes(segment, now, queue),
            Route::Nowhere => queue,
        }
    }

    /// The views that the peer lets go when `segment` comes in.
    pub open spec fn receive_released(self, segment: TcpSegment, now: u64) -> Seq<Bytes> {
        match self.route(segment) {
            Route::Established(key) => self.established[key].released(segment, now),
            Route::Listening(key) => self.passive[key].released(segment, now),
            _ => Seq::empty(),
        }
    }
}

impl TcpPeer {
    /// Takes in `segment`. It goes to the connection it belongs to, or ends
    /// the handshake it answers, or begins or ends a handshake at the
    /// endpoint that listens for it; a handshake that begins gets the
    /// sequence number `isn`. What answers the segment is queued for
    /// transmission.
    pub fn receive_with(
        &mut self,
        segment: TcpSegment,
        isn: u32,
        rt: &mut Runtime,
    ) -> (done: Result<
        (),
        Fail,
    >)
        requires
            old(self).wf(),
        ensures
            final(self).wf(),
            final(self)@ == old(self)@.receive(
                segment,
                isn,
                old(rt)@.now,
                old(rt)@.tcp_options,
            ),
            final(self)@.sockets.dom() == old(self)@.sockets.dom(),
            done == old(self)@.receive_result(segment, old(rt)@.now),
            final(rt)@ == (RuntimeView {
                outgoing: with_segment(
                    old(rt)@.outgoing,
                    old(self)@.receive_answer(segment, isn, old(rt)@.tcp_options),
                ),
                wakes: old(self)@.receive_wakes(segment, old(rt)@.now, old(rt)@.wakes),
                pool: final(rt)@.pool,
                ..old(rt)@
            }),
            old(rt)@.pool.donated_all(
                old(self)@.receive_released(segment, old(rt)@.now),
                final(rt)@.pool,
            ),
    {
        let key = conn_key(&segment.dst, &segment.src);
        let now = rt.now();
        proof {
            old(rt)@.pool.lemma_donated_none();
        }
        if self.established.contains_key(key) {
            let mut cb = self.established.remove(key).unwrap();
            let done = cb.receive(segment, now, &mut rt.pool, &mut rt.wakes);
            let _ = self.established.insert(key, cb);
            assert(self@.established =~= old(self)@.receive(
                segment,
                isn,
                old(rt)@.now,
                old(rt)@.tcp_options,
            ).established);
            assert(self@.passive =~= old(self)@.passive);
            return done;
        }
        if self.connecting.contains_key(key) {
            let active = *self.connecting.get(key).unwrap();
            if !(segment.syn && segment.ack && segment.ack_num == seq_advance(
                active.local_isn,
                1,
            )) {
                return Err(Fail::Ignored { details: "Unexpected segment in handshake" });
            }
            let local_seq = seq_advance(active.local_isn, 1);
            let remote_seq = seq_advance(segment.seq_num, 1);
            let cb = ControlBlock::new(
                active.local,
                active.remote,
                local_seq,
                remote_seq,
                segment.window_size,
                &rt.tcp_options,
            );
            let window = advertise(rt.tcp_options.receive_window_size);
            rt.transmit(
                Packet::Tcp(
                    control(
                        active.local,
                        active.remote,
                        local_seq,
                        remote_seq,
                        false,
                        true,
                        false,
                        window,
                    ),
                ),
            );
            let _ = self.connecting.remove(key);
            let _ = self.established.insert(key, cb);
            self.connections.push((active.local, active.remote));
            let _ = self.sockets.insert(
                active.fd as u128,
                Socket::Established { local: active.local, remote: active.remote },
            );
            rt.wakes.wake_if(active.waker);
            assert(self@.established =~= old(self)@.connected(
                key,
                segment,
                old(rt)@.tcp_options,
            ).established);
            assert(self@.passive =~= old(self)@.passive);
            return Ok(());
        }
        let listening = segment.dst.key();
        if self.passive.contains_key(listening) {
            let mut passive = self.passive.remove(listening).unwrap();
            let (done, answer) = passive.receive(
                segment,
                isn,
                now,
                &rt.tcp_options,
                &mut rt.pool,
                &mut rt.wakes,
            );
            match answer {
                Some(answer) => {
                    rt.transmit(Packet::Tcp(answer));
                },
                None => {},
            }
            let _ = self.passive.insert(listening, passive);
            assert(self@.passive =~= old(self)@.receive(
                segment,
                isn,
                old(rt)@.now,
                old(rt)@.tcp_options,
            ).passive);
            assert(self@.established =~= old(self)@.established);
            return done;
        }
        Err(Fail::Malformed { details: "No socket for segment" })
    }

    /// Takes in `segment`, with a sequence number drawn at random for a
    /// handshake that it may begin.
    pub fn receive(&mut self, segment: TcpSegment, rt: &mut Runtime) -> (done: Result<(), Fail>)
        requires
            old(self).wf(),
        ensures
            final(self).wf(),
            done == old(self)@.receive_result(segment, old(rt)@.now),
            exists|isn: u32|
                final(self)@ == #[trigger] old(self)@.receive(
                    segment,
                    isn,
                    old(rt)@.now,
                    old(rt)@.tcp_options,
                ) && final(rt)@.outgoing == with_segment(
                    old(rt)@.outgoing,
                    old(self)@.receive_answer(segment, isn, old(rt)@.tcp_options),
                ),
            final(rt)@ == (RuntimeView {
                outgoing: final(rt)@.outgoing,
                wakes: old(self)@.receive_wakes(segment, old(rt)@.now, old(rt)@.wakes),
                pool: final(rt)@.pool,
                ..old(rt)@
            }),
            old(rt)@.pool.donated_all(
                old(self)@.receive_released(segment, old(rt)@.now),
                final(rt)@.pool,
            ),
    {
        let isn = rt.rng_gen();
        self.receive_with(segment, isn, rt)
    }
}

impl TcpPeer {
    /// Looks at the timers of every connection, the last of the list
    /// first: acknowledgments that are due go out, what has waited too long
    /// for its own is sent again, and connections that are done with are
    /// removed.
    pub fn background(&mut self, rt: &mut Runtime)
        requires
            old(self).wf(),
        ensures
            final(self).wf(),
            final(self)@ == old(self)@.sweep(old(self)@.connections.len(), old(rt)@.now),
            final(self)@.sockets == old(self)@.sockets,
            final(rt)@ == (RuntimeView {
                outgoing: old(rt)@.outgoing + old(self)@.sweep_segments(
                    old(self)@.connections.len(),
                    old(rt)@.now,
                ),
                ..old(rt)@
            }),
    {
        let ghost now = rt@.now;
        let ghost target = self@.sweep(self@.connections.len(), now);
        let ghost sent = rt@.outgoing + self@.sweep_segments(self@.connections.len(), now);
        let mut i: usize = self.connections.len();
        assert(rt@.outgoing + Seq::<Packet>::empty() =~= rt@.outgoing);
        while i > 0
            invariant
                self.wf(),
                i <= self@.connections.len(),
                rt@.now == now,
                self@.sweep(i as nat, now) == target,
                rt@.outgoing + self@.sweep_segments(i as nat, now) == sent,
                rt@ == (RuntimeView { outgoing: rt@.outgoing, ..old(rt)@ }),
                self@.sockets == old(self)@.sockets,
            decreases i,
        {
            i = i - 1;
            let ghost before = self@;
            let ghost queued = rt@.outgoing;
            let (local, remote) = self.connections[i];
            let key = conn_key(&local, &remote);
            match self.established.remove(key) {
                Some(cb) => {
                    let mut cb = cb;
                    cb.tick(rt);
                    if cb.finished() {
                        let _ = self.connections.remove(i);
                        assert(self@.established =~= before.tick(key, now).established);
                    } else {
                        let _ = self.established.insert(key, cb);
                        assert(self@.established =~= before.tick(key, now).established);
                    }
                },
                None => {
                    let _ = self.connections.remove(i);
                    assert(self@.established =~= before.established);
                },
            }
            proof {
                assert(self@.passive =~= before.passive);
                let segments = before.tick_segments(key, now);
                assert(rt@.outgoing == queued + segments);
                assert((queued + segments) + self@.sweep_segments(i as nat, now) =~= queued + (
                segments + self@.sweep_segments(i as nat, now)));
            }
        }
    }
}

} // verus!
