use catnip::engine::{Engine, Protocol};
use catnip::fail::Fail;
use catnip::operations::OperationResult;
use catnip::protocols::ip::Port;
use catnip::protocols::ipv4::Endpoint;
use catnip::operations::Poll;
use catnip::runtime::{Frame, Packet, PacketSerialize, Runtime, TcpOptions, IPPROTO_TCP, IPPROTO_UDP};
use catnip::scheduler::Operation;
use catnip::sync::{Bytes, BytesMut, Waker};
use catnip::test_helpers::{new_alice, new_bob, ALICE_IPV4, BOB_IPV4};

fn options() -> TcpOptions {
    TcpOptions { receive_window_size: 0xffff, window_scale: 0 }
}

fn endpoint(a: u8, b: u8, c: u8, d: u8, port: u16) -> Endpoint {
    Endpoint::from_octets(a, b, c, d, Port::try_from(port).unwrap())
}

fn payload(len: usize) -> Bytes {
    let mut buf = BytesMut::zeroed(len);
    for i in 0..len {
        buf.set(i, (i * 7 + 3) as u8);
    }
    buf.freeze()
}

/// Writes a packet out as the bytes on the wire and wraps them as the
/// runtime would on the other side.
fn on_the_wire(packet: Packet) -> Frame {
    match packet {
        Packet::Tcp(segment) => {
            let mut wire = vec![0xaau8; segment.compute_size()];
            segment.serialize(wire.as_mut_slice());
            Frame {
                protocol: IPPROTO_TCP,
                src_addr: segment.src.address(),
                dst_addr: segment.dst.address(),
                payload: BytesMut::from_slice(&wire).freeze(),
            }
        },
        Packet::Udp(datagram) => {
            let mut wire = vec![0xaau8; datagram.compute_size()];
            datagram.serialize(wire.as_mut_slice());
            Frame {
                protocol: IPPROTO_UDP,
                src_addr: datagram.local.map(|l| l.address()).unwrap_or(0),
                dst_addr: datagram.remote.address(),
                payload: BytesMut::from_slice(&wire).freeze(),
            }
        },
    }
}

/// Carries everything that one engine has queued to the other, both ways,
/// until nothing is left to carry.
fn shuttle(a: &mut Engine, b: &mut Engine) {
    loop {
        let mut carried = false;
        a.background();
        while let Some(packet) = a.rt.pop_outgoing() {
            let _ = b.receive(on_the_wire(packet));
            carried = true;
        }
        b.background();
        while let Some(packet) = b.rt.pop_outgoing() {
            let _ = a.receive(on_the_wire(packet));
            carried = true;
        }
        if !carried {
            break;
        }
    }
}

fn finish(op: &mut Operation, engine: &mut Engine) -> bool {
    matches!(op.poll(engine, &Waker::new(99)), Poll::Ready(()))
}

fn connected_pair() -> (Engine, u32, Engine, u32) {
    let mut server = Engine::new(Runtime::new(0, 0x0a00_0001, options(), 11)).unwrap();
    let mut client = Engine::new(Runtime::new(0, 0x0a00_0002, options(), 12)).unwrap();
    let listener = server.socket(Protocol::Tcp).unwrap();
    assert_eq!(server.bind(listener, endpoint(10, 0, 0, 1, 9000)), Ok(()));
    assert_eq!(server.listen(listener, 10), Ok(()));
    let mut accept = server.accept(listener).unwrap();
    assert!(!finish(&mut accept, &mut server));

    let fd = client.socket(Protocol::Tcp).unwrap();
    let mut connect = client.connect(fd, endpoint(10, 0, 0, 1, 9000)).unwrap();
    assert!(!finish(&mut connect, &mut client));
    shuttle(&mut client, &mut server);

    assert!(finish(&mut connect, &mut client));
    assert!(matches!(connect.expect_result(), (f, OperationResult::Connect) if f == fd));
    assert!(finish(&mut accept, &mut server));
    let accepted = match accept.expect_result() {
        (f, OperationResult::Accept(new_fd)) => {
            assert_eq!(f, listener);
            new_fd
        },
        other => panic!("unexpected outcome {:?}", other.1),
    };
    assert_ne!(accepted, listener);
    (server, accepted, client, fd)
}

#[test]
fn bytes_pushed_by_the_peer_are_popped_unchanged() {
    let (mut server, accepted, mut client, fd) = connected_pair();
    let data = payload(1024);

    let _ = server.rt.wakes.drain();
    let mut pop = server.pop(accepted).unwrap();
    assert!(!finish(&mut pop, &mut server));
    let mut push = client.push(fd, data.clone()).unwrap();
    assert!(finish(&mut push, &mut client));
    assert!(matches!(push.expect_result(), (_, OperationResult::Push)));
    shuttle(&mut client, &mut server);
    assert_eq!(server.rt.wakes.drain(), vec![99]);

    assert!(finish(&mut pop, &mut server));
    match pop.expect_result() {
        (f, OperationResult::Pop(None, bytes)) => {
            assert_eq!(f, accepted);
            assert_eq!(bytes.len(), 1024);
            assert_eq!(bytes.as_slice(), data.as_slice());
        },
        other => panic!("unexpected outcome {:?}", other.1),
    }
}

#[test]
fn data_that_comes_before_the_accept_is_kept() {
    let mut server = Engine::new(Runtime::new(0, 0x0a00_0001, options(), 21)).unwrap();
    let mut client = Engine::new(Runtime::new(0, 0x0a00_0002, options(), 22)).unwrap();
    let listener = server.socket(Protocol::Tcp).unwrap();
    server.bind(listener, endpoint(10, 0, 0, 1, 9000)).unwrap();
    server.listen(listener, 1).unwrap();
    let fd = client.socket(Protocol::Tcp).unwrap();
    let mut connect = client.connect(fd, endpoint(10, 0, 0, 1, 9000)).unwrap();
    shuttle(&mut client, &mut server);
    assert!(finish(&mut connect, &mut client));
    let data = payload(300);
    let mut push = client.push(fd, data.clone()).unwrap();
    assert!(finish(&mut push, &mut client));
    shuttle(&mut client, &mut server);

    // A second peer finds the backlog full.
    let mut other = Engine::new(Runtime::new(0, 0x0a00_0003, options(), 23)).unwrap();
    let other_fd = other.socket(Protocol::Tcp).unwrap();
    let mut refused = other.connect(other_fd, endpoint(10, 0, 0, 1, 9000)).unwrap();
    match other.rt.pop_outgoing() {
        Some(syn) => assert_eq!(
            server.receive(on_the_wire(syn)),
            Err(Fail::ResourceExhausted { details: "Backlog full" })
        ),
        None => panic!("the SYN should wait to be transmitted"),
    }
    assert!(!finish(&mut refused, &mut other));

    let mut accept = server.accept(listener).unwrap();
    assert!(finish(&mut accept, &mut server));
    let accepted = match accept.expect_result() {
        (_, OperationResult::Accept(new_fd)) => new_fd,
        other => panic!("unexpected outcome {:?}", other.1),
    };
    let mut pop = server.pop(accepted).unwrap();
    assert!(finish(&mut pop, &mut server));
    match pop.expect_result() {
        (_, OperationResult::Pop(_, bytes)) => assert_eq!(bytes.as_slice(), data.as_slice()),
        other => panic!("unexpected outcome {:?}", other.1),
    }
}

#[test]
fn client_ports_come_from_the_ephemeral_range() {
    let (server, _, mut client, fd) = connected_pair();
    drop(server);
    let second = client.socket(Protocol::Tcp).unwrap();
    let _ = client.connect(second, endpoint(10, 0, 0, 1, 9000)).unwrap();
    match client.rt.pop_outgoing() {
        Some(Packet::Tcp(syn)) => {
            assert!(syn.syn && !syn.ack);
            assert_eq!(syn.src.address(), 0x0a00_0002);
            assert_eq!(syn.src.port().value(), 49153);
            assert_eq!(syn.window_size, 0xffff);
        },
        _ => panic!("the SYN should wait to be transmitted"),
    }
    // The port of a closed socket is handed out again.
    assert_eq!(client.close(fd), Ok(()));
    let _ = client.rt.pop_outgoing();
    let third = client.socket(Protocol::Tcp).unwrap();
    let _ = client.connect(third, endpoint(10, 0, 0, 9, 1)).unwrap();
    match client.rt.pop_outgoing() {
        Some(Packet::Tcp(syn)) => assert_eq!(syn.src.port().value(), 49152),
        _ => panic!("the SYN should wait to be transmitted"),
    }
    let mut unbound = client.connect(77, endpoint(10, 0, 0, 9, 1));
    assert!(unbound.is_err());
    let _ = &mut unbound;
}

#[test]
fn data_flows_both_ways_and_is_acknowledged() {
    let (mut server, accepted, mut client, fd) = connected_pair();
    for round in 0..5usize {
        let there = payload(100 + round);
        let mut push = client.push(fd, there.clone()).unwrap();
        assert!(finish(&mut push, &mut client));
        shuttle(&mut client, &mut server);
        let mut pop = server.pop(accepted).unwrap();
        assert!(finish(&mut pop, &mut server));
        let got = match pop.expect_result() {
            (_, OperationResult::Pop(_, bytes)) => bytes,
            other => panic!("unexpected outcome {:?}", other.1),
        };
        assert_eq!(got.as_slice(), there.as_slice());

        let mut echo = server.push(accepted, got).unwrap();
        assert!(finish(&mut echo, &mut server));
        shuttle(&mut client, &mut server);
        let mut back = client.pop(fd).unwrap();
        assert!(finish(&mut back, &mut client));
        match back.expect_result() {
            (_, OperationResult::Pop(_, bytes)) => assert_eq!(bytes.as_slice(), there.as_slice()),
            other => panic!("unexpected outcome {:?}", other.1),
        }
    }
}

#[test]
fn lost_segment_is_sent_again_after_the_timeout() {
    let (mut server, accepted, mut client, fd) = connected_pair();
    let data = payload(64);
    let mut push = client.push(fd, data.clone()).unwrap();
    assert!(finish(&mut push, &mut client));
    // The segment is lost on its way.
    assert!(matches!(client.rt.pop_outgoing(), Some(Packet::Tcp(_))));
    assert!(client.rt.pop_outgoing().is_none());
    shuttle(&mut client, &mut server);
    let mut pop = server.pop(accepted).unwrap();
    assert!(!finish(&mut pop, &mut server));

    client.rt.advance_clock(2_000_000_000);
    shuttle(&mut client, &mut server);
    assert!(finish(&mut pop, &mut server));
    match pop.expect_result() {
        (_, OperationResult::Pop(_, bytes)) => assert_eq!(bytes.as_slice(), data.as_slice()),
        other => panic!("unexpected outcome {:?}", other.1),
    }
}

#[test]
fn acknowledgment_follows_the_data_after_the_delay() {
    let (mut server, accepted, mut client, fd) = connected_pair();
    let mut push = client.push(fd, payload(10)).unwrap();
    assert!(finish(&mut push, &mut client));
    match client.rt.pop_outgoing() {
        Some(packet) => assert_eq!(server.receive(on_the_wire(packet)), Ok(())),
        None => panic!("the segment should wait to be transmitted"),
    }
    // Nothing is acknowledged before the delay has passed.
    server.rt.advance_clock(499_999_999);
    server.background();
    assert!(server.rt.pop_outgoing().is_none());
    server.rt.advance_clock(500_000_000);
    server.background();
    let ack = match server.rt.pop_outgoing() {
        Some(Packet::Tcp(ack)) => ack,
        _ => panic!("the acknowledgment is due"),
    };
    assert!(ack.ack && !ack.syn && !ack.fin);
    assert_eq!(ack.payload.len(), 0);
    assert_eq!(ack.window_size, 0xffff - 10);
    server.background();
    assert!(server.rt.pop_outgoing().is_none());

    // The acknowledged segment is not sent again.
    assert_eq!(client.receive(on_the_wire(Packet::Tcp(ack))), Ok(()));
    client.rt.advance_clock(10_000_000_000);
    client.background();
    assert!(client.rt.pop_outgoing().is_none());
    let mut pop = server.pop(accepted).unwrap();
    assert!(finish(&mut pop, &mut server));
}

#[test]
fn peer_window_bounds_what_is_in_flight() {
    let (mut server, _, mut client, fd) = connected_pair();
    let mut first = client.push(fd, payload(0xffff)).unwrap();
    assert!(finish(&mut first, &mut client));
    assert!(matches!(first.expect_result(), (_, OperationResult::Push)));
    let mut second = client.push(fd, payload(1)).unwrap();
    assert!(finish(&mut second, &mut client));
    assert!(matches!(
        second.expect_result(),
        (_, OperationResult::Failed(Fail::ResourceExhausted { details: "Send window full" }))
    ));
    shuttle(&mut client, &mut server);
    // The acknowledgment tells of a closed window until the data is read.
    server.rt.advance_clock(1_000_000_000);
    shuttle(&mut client, &mut server);
    let mut third = client.push(fd, payload(1)).unwrap();
    assert!(finish(&mut third, &mut client));
    assert!(matches!(third.expect_result(), (_, OperationResult::Failed(_))));
}

#[test]
fn connection_goes_when_both_sides_have_closed() {
    let (mut server, accepted, mut client, fd) = connected_pair();
    assert_eq!(client.close(fd), Ok(()));
    shuttle(&mut client, &mut server);
    assert_eq!(server.close(accepted), Ok(()));
    shuttle(&mut client, &mut server);
    shuttle(&mut client, &mut server);
    // Neither side knows the connection any more.
    let stray = catnip::protocols::tcp::segment::TcpSegment {
        src: endpoint(10, 0, 0, 2, 49152),
        dst: endpoint(10, 0, 0, 1, 9000),
        seq_num: 1,
        ack_num: 1,
        syn: false,
        ack: true,
        fin: false,
        rst: false,
        window_size: 1,
        payload: payload(1),
    };
    assert_eq!(
        server.receive(on_the_wire(Packet::Tcp(stray))),
        Err(Fail::Ignored { details: "Unexpected segment in handshake" })
    );
    let back = catnip::protocols::tcp::segment::TcpSegment {
        src: endpoint(10, 0, 0, 1, 9000),
        dst: endpoint(10, 0, 0, 2, 49152),
        seq_num: 1,
        ack_num: 1,
        syn: false,
        ack: true,
        fin: false,
        rst: false,
        window_size: 1,
        payload: payload(1),
    };
    assert_eq!(
        client.receive(on_the_wire(Packet::Tcp(back))),
        Err(Fail::Malformed { details: "No socket for segment" })
    );
}

#[test]
fn close_ends_the_stream_for_the_peer() {
    let (mut server, accepted, mut client, fd) = connected_pair();
    assert_eq!(client.close(fd), Ok(()));
    shuttle(&mut client, &mut server);
    let mut pop = server.pop(accepted).unwrap();
    assert!(finish(&mut pop, &mut server));
    match pop.expect_result() {
        (_, OperationResult::Failed(e)) => {
            assert_eq!(e, Fail::ResourceNotFound { details: "Receiver closed" })
        },
        other => panic!("unexpected outcome {:?}", other.1),
    }
    assert_eq!(client.close(fd), Err(Fail::Malformed { details: "Invalid file descriptor" }));
}

#[test]
fn listen_on_a_udp_socket_is_refused() {
    let mut engine = new_alice(0);
    let fd = engine.socket(Protocol::Udp).unwrap();
    assert_eq!(engine.listen(fd, 1), Err(Fail::Malformed { details: "Operation not supported" }));
    assert_eq!(engine.listen(77, 1), Err(Fail::Malformed { details: "Invalid file descriptor" }));
    assert!(engine.pop(77).is_err());
    assert!(engine.accept(77).is_err());
    let tcp = engine.tcp_socket().unwrap();
    assert!(engine.pushto(tcp, payload(1), endpoint(1, 2, 3, 4, 5)).is_err());
    let mut accept = engine.accept(fd).unwrap();
    assert!(finish(&mut accept, &mut engine));
    assert!(matches!(
        accept.expect_result(),
        (_, OperationResult::Failed(Fail::Malformed { details: "Operation not supported" }))
    ));
}

#[test]
fn datagram_travels_between_two_engines() {
    let mut alice = new_alice(0);
    let mut bob = new_bob(0);
    let alice_addr = Endpoint::new(ALICE_IPV4, Port::try_from(5000).unwrap());
    let bob_addr = Endpoint::new(BOB_IPV4, Port::try_from(6000).unwrap());
    let a = alice.socket(Protocol::Udp).unwrap();
    let b = bob.socket(Protocol::Udp).unwrap();
    assert_eq!(alice.bind(a, alice_addr), Ok(()));
    assert_eq!(bob.bind(b, bob_addr), Ok(()));
    assert_eq!(
        bob.bind(b, bob_addr),
        Err(Fail::Malformed { details: "Invalid file descriptor on bind" })
    );

    let mut pop = bob.pop(b).unwrap();
    assert!(!finish(&mut pop, &mut bob));
    let data = payload(33);
    let mut push = alice.pushto(a, data.clone(), bob_addr).unwrap();
    assert!(finish(&mut push, &mut alice));
    shuttle(&mut alice, &mut bob);
    assert!(finish(&mut pop, &mut bob));
    match pop.expect_result() {
        (f, OperationResult::Pop(Some(from), bytes)) => {
            assert_eq!(f, b);
            assert_eq!(from, alice_addr);
            assert_eq!(bytes.as_slice(), data.as_slice());
        },
        other => panic!("unexpected outcome {:?}", other.1),
    }

    // A datagram that nobody read is let go with the socket.
    assert_eq!(
        bob.udp.receive(bob_addr, Some(alice_addr), payload(12288), &mut bob.rt.wakes),
        Ok(())
    );
    assert_eq!(bob.rt.pool.available(), 0);
    assert_eq!(bob.close(b), Ok(()));
    assert_eq!(bob.rt.pool.available(), 1);
    assert_eq!(bob.close(b), Err(Fail::Malformed { details: "Invalid file descriptor" }));
}

#[test]
fn protocol_calls_reach_their_peer_directly() {
    let mut engine = new_alice(0);
    let tcp = engine.tcp_socket().unwrap();
    assert_eq!(
        engine.tcp_listen(tcp, 4),
        Err(Fail::Malformed { details: "Socket is not bound" })
    );
    assert_eq!(engine.tcp_bind(tcp, endpoint(192, 168, 1, 1, 80)), Ok(()));
    assert_eq!(
        engine.tcp_bind(tcp, endpoint(192, 168, 1, 1, 81)),
        Err(Fail::Malformed { details: "Invalid file descriptor" })
    );
    assert_eq!(engine.tcp_listen(tcp, 4), Ok(()));
    assert_eq!(engine.tcp_listen(tcp, 4), Err(Fail::Malformed { details: "Invalid file descriptor" }));
    let other = engine.tcp_socket().unwrap();
    assert_eq!(engine.tcp_bind(other, endpoint(192, 168, 1, 1, 80)), Ok(()));
    assert_eq!(engine.tcp_listen(other, 4), Err(Fail::Malformed { details: "Address in use" }));
    assert_eq!(engine.tcp_accept(tcp).fd, tcp);
    assert_eq!(engine.tcp_pop(tcp).fd, tcp);
    assert_eq!(
        engine.tcp_push(tcp, payload(1)).result,
        Err(Fail::Malformed { details: "Invalid file descriptor" })
    );
    let started = engine.tcp_connect(other, endpoint(192, 168, 1, 2, 80));
    assert_eq!((started.fd, started.started), (other, Ok(())));
    let again = engine.tcp_connect(other, endpoint(192, 168, 1, 2, 80));
    assert_eq!(again.started, Err(Fail::Malformed { details: "Invalid file descriptor" }));
    assert_eq!(engine.tcp_close(tcp), Ok(()));
    assert_eq!(engine.tcp_close(tcp), Err(Fail::Malformed { details: "Invalid file descriptor" }));

    let udp = engine.socket(Protocol::Udp).unwrap();
    assert_eq!(
        engine.udp_push(udp, payload(1)),
        Err(Fail::Malformed { details: "Invalid file descriptor on push" })
    );
    assert_eq!(
        engine.udp_pop(udp).listener,
        Err(Fail::Malformed { details: "Invalid file descriptor" })
    );
    let here = endpoint(192, 168, 1, 1, 53);
    assert_eq!(engine.bind(udp, here), Ok(()));
    assert_eq!(engine.udp_pop(udp).listener, Ok(here));
    let mut connect = engine.connect(udp, endpoint(192, 168, 1, 2, 53)).unwrap();
    assert!(finish(&mut connect, &mut engine));
    assert!(matches!(connect.expect_result(), (_, OperationResult::Connect)));
    assert_eq!(engine.udp_push(udp, payload(1)), Ok(()));
    let twin = engine.socket(Protocol::Udp).unwrap();
    assert_eq!(
        engine.bind(twin, here),
        Err(Fail::Malformed { details: "Could not bind to address" })
    );
    let mut early = engine.connect(twin, here).unwrap();
    assert!(finish(&mut early, &mut engine));
    assert!(matches!(
        early.expect_result(),
        (_, OperationResult::Failed(Fail::Malformed { details: "Please bind the socket before connecting" }))
    ));
}

#[test]
fn descriptors_are_the_lowest_that_are_free() {
    let mut engine = new_alice(0);
    assert_eq!(engine.socket(Protocol::Tcp), Ok(0));
    assert_eq!(engine.socket(Protocol::Udp), Ok(1));
    assert_eq!(engine.tcp_socket(), Ok(2));
    assert_eq!(engine.close(1), Ok(()));
    assert_eq!(engine.close(0), Ok(()));
    assert_eq!(engine.socket(Protocol::Udp), Ok(0));
    assert_eq!(engine.socket(Protocol::Udp), Ok(1));
    assert_eq!(engine.socket(Protocol::Udp), Ok(3));
}

#[test]
fn first_ephemeral_port_can_be_set() {
    let rt = Runtime::new(0, 0x0a00_0002, options(), 3);
    let mut client = Engine::with_first_port(rt, Port::try_from(60000).unwrap()).unwrap();
    for expected in [60000u16, 60001] {
        let fd = client.socket(Protocol::Tcp).unwrap();
        let _ = client.connect(fd, endpoint(10, 0, 0, 1, 9000)).unwrap();
        match client.rt.pop_outgoing() {
            Some(Packet::Tcp(syn)) => assert_eq!(syn.src.port().value(), expected),
            _ => panic!("the SYN should wait to be transmitted"),
        }
    }
}

#[test]
fn closed_descriptor_names_a_new_socket_of_either_protocol() {
    let rt = Runtime::new(0, 0x0a00_0002, options(), 3);
    let mut engine = Engine::new(rt).unwrap();
    assert_eq!(engine.socket(Protocol::Udp), Ok(0));
    assert_eq!(engine.socket(Protocol::Tcp), Ok(1));
    assert_eq!(engine.close(0), Ok(()));
    // The descriptor is free again and now names a TCP socket.
    assert_eq!(engine.socket(Protocol::Tcp), Ok(0));
    assert_eq!(engine.listen(0, 5), Err(Fail::Malformed { details: "Socket is not bound" }));
    assert_eq!(engine.close(0), Ok(()));
    assert_eq!(engine.close(0), Err(Fail::Malformed { details: "Invalid file descriptor" }));
    assert_eq!(engine.socket(Protocol::Udp), Ok(0));
    assert_eq!(engine.socket(Protocol::Udp), Ok(2));
}
