use catnip::engine::{Engine, Protocol};
use catnip::fail::Fail;
use catnip::interop::{dmtr_opcode_t, dmtr_qr_value_t, dmtr_qresult_t, dmtr_sgarray_t, dmtr_sgaseg_t};
use catnip::libos::{classify_socket, LibOS, WaitState, Waited};
use catnip::operations::OperationResult;
use catnip::protocols::ip::Port;
use catnip::protocols::ipv4::Endpoint;
use catnip::runtime::{
    Frame, Packet, PacketSerialize, Runtime, TcpOptions, IPPROTO_TCP, IPPROTO_UDP,
};
use catnip::scheduler::{Operation, Scheduler};
use catnip::sync::{Bytes, BytesMut};
use catnip::test_helpers::{new_alice, ALICE_IPV4, BOB_IPV4};

fn options() -> TcpOptions {
    TcpOptions { receive_window_size: 0xffff, window_scale: 0 }
}

fn data(bytes: &[u8]) -> Bytes {
    BytesMut::from_slice(bytes).freeze()
}

fn datagram_frame(from: Endpoint, to: Endpoint, payload: &[u8]) -> Frame {
    let datagram = catnip::protocols::udp::OutgoingReq {
        local: Some(from),
        remote: to,
        payload: data(payload),
    };
    let mut wire = vec![0u8; datagram.compute_size()];
    datagram.serialize(&mut wire);
    Frame {
        protocol: IPPROTO_UDP,
        src_addr: from.address(),
        dst_addr: to.address(),
        payload: data(&wire),
    }
}

fn udp_pair(engine: &mut Engine) -> (u32, Endpoint, u32, Endpoint) {
    let a = engine.socket(Protocol::Udp).unwrap();
    let b = engine.socket(Protocol::Udp).unwrap();
    let at_a = Endpoint::new(ALICE_IPV4, Port::try_from(7000).unwrap());
    let at_b = Endpoint::new(ALICE_IPV4, Port::try_from(7001).unwrap());
    engine.bind(a, at_a).unwrap();
    engine.bind(b, at_b).unwrap();
    (a, at_a, b, at_b)
}

#[test]
fn cancelled_operation_never_completes() {
    let mut engine = new_alice(0);
    let (a, at_a, _, _) = udp_pair(&mut engine);
    let mut scheduler = Scheduler::new();
    let handle = scheduler.insert(engine.pop(a).unwrap()).unwrap();
    scheduler.poll(&mut engine);
    assert!(!scheduler.has_completed(&handle));
    let key = handle.into_raw();
    scheduler.cancel(scheduler.from_raw_handle(key).unwrap());
    assert!(scheduler.from_raw_handle(key).is_none());

    // What would have finished the operation comes in after it is gone.
    let peer = Endpoint::new(BOB_IPV4, Port::try_from(9).unwrap());
    engine.receive(datagram_frame(peer, at_a, &[1, 2, 3])).unwrap();
    scheduler.poll(&mut engine);
    assert!(scheduler.from_raw_handle(key).is_none());

    // A later operation gets a key of its own and finds the datagram.
    let later = scheduler.insert(engine.pop(a).unwrap()).unwrap();
    scheduler.poll(&mut engine);
    assert!(scheduler.has_completed(&later));
    let later_key = later.into_raw();
    assert_ne!(later_key, key);
    assert!(scheduler.from_raw_handle(key).is_none());
    let done = scheduler.take(scheduler.from_raw_handle(later_key).unwrap());
    match done.expect_result() {
        (fd, OperationResult::Pop(Some(from), bytes)) => {
            assert_eq!(fd, a);
            assert_eq!(from, peer);
            assert_eq!(bytes.as_slice(), &[1, 2, 3]);
        },
        other => panic!("unexpected outcome {:?}", other.1),
    }
    assert!(scheduler.from_raw_handle(later_key).is_none());
}

#[test]
fn poll_moves_only_what_is_due_or_woken() {
    let mut engine = new_alice(0);
    let (a, at_a, b, _) = udp_pair(&mut engine);
    let mut scheduler = Scheduler::new();
    let first = scheduler.insert(engine.pop(a).unwrap()).unwrap();
    let second = scheduler.insert(engine.pop(b).unwrap()).unwrap();
    scheduler.poll(&mut engine);
    assert!(!scheduler.has_completed(&first));
    assert!(!scheduler.has_completed(&second));
    let peer = Endpoint::new(BOB_IPV4, Port::try_from(9).unwrap());
    engine.receive(datagram_frame(peer, at_a, &[5])).unwrap();
    // The datagram woke the reader; a poll moves it on.
    assert!(!scheduler.has_completed(&first));
    scheduler.poll(&mut engine);
    assert!(scheduler.has_completed(&first));
    assert!(!scheduler.has_completed(&second));
    // A finished operation keeps its outcome through further polls.
    scheduler.poll(&mut engine);
    assert!(scheduler.has_completed(&first));
    assert!(matches!(
        scheduler.take(first).expect_result(),
        (_, OperationResult::Pop(_, _))
    ));
}

fn libos() -> LibOS {
    LibOS::new(Runtime::new(0, ALICE_IPV4, options(), 5)).unwrap()
}

#[test]
fn socket_serves_ipv4_stream_and_datagram_only() {
    let mut libos = libos();
    assert_eq!(
        libos.socket(libc::AF_INET6, libc::SOCK_STREAM, 0),
        Err(Fail::Invalid { details: "Invalid domain" })
    );
    assert_eq!(
        libos.socket(libc::AF_INET, libc::SOCK_RAW, 0),
        Err(Fail::Invalid { details: "Invalid socket type" })
    );
    assert_eq!(
        libos.socket(libc::AF_INET, libc::SOCK_STREAM, 6),
        Err(Fail::Invalid { details: "Invalid protocol" })
    );
    assert_eq!(libos.socket(libc::AF_INET, libc::SOCK_STREAM, 0), Ok(0));
    assert_eq!(libos.socket(libc::AF_INET, libc::SOCK_DGRAM, 0), Ok(1));
    assert_eq!(libos.listen(1, 5), Err(Fail::Malformed { details: "Operation not supported" }));
    assert_eq!(libos.close(0), Ok(()));
    assert_eq!(libos.rt().now(), 0);

    assert_eq!(classify_socket(2, 1, 0, 2, 1, 2), Ok(Protocol::Tcp));
    assert_eq!(classify_socket(2, 2, 0, 2, 1, 2), Ok(Protocol::Udp));
    assert_eq!(classify_socket(3, 1, 0, 2, 1, 2), Err(Fail::Invalid { details: "Invalid domain" }));
    assert_eq!(
        classify_socket(2, 3, 1, 2, 1, 2),
        Err(Fail::Invalid { details: "Invalid socket type" })
    );
    assert_eq!(
        classify_socket(2, 1, 1, 2, 1, 2),
        Err(Fail::Invalid { details: "Invalid protocol" })
    );
}

#[test]
fn wait_any_returns_the_first_to_complete_and_removes_only_its_token() {
    let mut libos = libos();
    let a = libos.socket(libc::AF_INET, libc::SOCK_DGRAM, 0).unwrap();
    let b = libos.socket(libc::AF_INET, libc::SOCK_DGRAM, 0).unwrap();
    let c = libos.socket(libc::AF_INET, libc::SOCK_DGRAM, 0).unwrap();
    let at = |port: u16| Endpoint::new(ALICE_IPV4, Port::try_from(port).unwrap());
    libos.bind(a, at(7000)).unwrap();
    libos.bind(b, at(7001)).unwrap();
    libos.bind(c, at(7002)).unwrap();
    let mut qts = vec![libos.pop(a).unwrap(), libos.pop(b).unwrap(), libos.pop(c).unwrap()];
    let tokens = qts.clone();
    let mut state = WaitState::new();
    assert!(matches!(libos.wait_any2(&mut qts, &mut state, 1_000, 10), Waited::Pending));
    assert_eq!(qts, tokens);
    assert_eq!(state.iter, 1);

    let peer = Endpoint::new(BOB_IPV4, Port::try_from(9).unwrap());
    libos.engine.rt.deliver(datagram_frame(peer, at(7001), &[7, 7]));
    // The frame is looked at in this round and wakes the reader; the next
    // round finishes the read.
    assert!(matches!(libos.wait_any2(&mut qts, &mut state, 1_000, 20), Waited::Pending));
    match libos.wait_any2(&mut qts, &mut state, 1_000, 30) {
        Waited::Done((fd, OperationResult::Pop(Some(from), bytes))) => {
            assert_eq!(fd, b);
            assert_eq!(from, peer);
            assert_eq!(bytes.as_slice(), &[7, 7]);
        },
        other => panic!("unexpected round {:?}", other),
    }
    assert_eq!(qts, vec![tokens[0], tokens[2]]);
    assert_eq!(libos.poll(tokens[0]).map(|r| r.qr_opcode), None);

    // Two finish at once: the one that stands first in the list is handed out.
    libos.engine.rt.deliver(datagram_frame(peer, at(7002), &[3]));
    libos.engine.rt.deliver(datagram_frame(peer, at(7000), &[1]));
    libos.poll_bg_work(40);
    match libos.wait_any(&qts, 50) {
        Some((0, record)) => {
            assert_eq!(record.qr_opcode, dmtr_opcode_t::DMTR_OPC_POP);
            assert_eq!(record.qr_qd, a as i32);
            assert_eq!(record.qr_qt, tokens[0]);
            match record.qr_value {
                dmtr_qr_value_t::sga(sga) => {
                    assert_eq!(sga.sga_numsegs, 1);
                    assert_eq!(sga.sga_addr, Some(peer));
                    assert_eq!(sga.sga_segs[0].sgaseg_len, 1);
                    assert_eq!(sga.sga_segs[0].sgaseg_buf.as_slice(), &[1]);
                },
                other => panic!("unexpected value {:?}", other),
            }
        },
        other => panic!("unexpected round {:?}", other.map(|r| r.0)),
    }
    match libos.wait(tokens[2], 60) {
        Some(record) => assert_eq!(record.qr_qd, c as i32),
        None => panic!("the read should be done"),
    }
}

#[test]
fn dropped_token_is_cancelled() {
    let mut libos = libos();
    let a = libos.socket(libc::AF_INET, libc::SOCK_DGRAM, 0).unwrap();
    libos.bind(a, Endpoint::new(ALICE_IPV4, Port::try_from(7000).unwrap())).unwrap();
    let qt = libos.pop(a).unwrap();
    assert!(libos.poll(qt).is_none());
    libos.drop_qtoken(qt);
    assert!(libos.scheduler.from_raw_handle(qt).is_none());
    let again = libos.pop(a).unwrap();
    assert_ne!(again, qt);
}

#[test]
fn wait_with_timeout_gives_up_after_the_deadline() {
    let mut libos = libos();
    let a = libos.socket(libc::AF_INET, libc::SOCK_DGRAM, 0).unwrap();
    libos.bind(a, Endpoint::new(ALICE_IPV4, Port::try_from(7000).unwrap())).unwrap();
    let qt = libos.pop(a).unwrap();
    let mut state = WaitState::new();
    let mut rounds = 0u64;
    let mut now = 0u64;
    loop {
        now += 10;
        match libos.wait4(qt, &mut state, 500, now) {
            Waited::Pending => rounds += 1,
            Waited::TimedOut => break,
            Waited::Done(_) => panic!("nothing came in"),
        }
    }
    // The deadline is set in round 25, at time 260, for time 760, and is
    // looked at every 25 rounds: first in round 25, then in round 50, then
    // in round 75 at time 760.
    assert_eq!(state.deadline, Some(760));
    assert_eq!(rounds, 75);
    assert_eq!(state.iter, 76);
    assert!(libos.wait2(qt, now).is_none());
    assert!(libos.wait3(qt, now).is_none());
}

#[test]
fn pushes_are_gathered_and_resolved_together() {
    let mut libos = libos();
    let a = libos.socket(libc::AF_INET, libc::SOCK_DGRAM, 0).unwrap();
    let here = Endpoint::new(ALICE_IPV4, Port::try_from(7000).unwrap());
    let there = Endpoint::new(BOB_IPV4, Port::try_from(7001).unwrap());
    libos.bind(a, here).unwrap();
    let sga = dmtr_sgarray_t {
        sga_numsegs: 2,
        sga_segs: vec![
            dmtr_sgaseg_t { sgaseg_buf: data(&[1, 2]), sgaseg_len: 2 },
            dmtr_sgaseg_t { sgaseg_buf: data(&[3]), sgaseg_len: 1 },
        ],
        sga_addr: None,
    };
    assert_eq!(sga.gather().as_slice(), &[1, 2, 3]);
    let mut qts = vec![libos.pushto(a, &sga, there).unwrap()];
    qts.push(libos.push2(a, data(&[9])).unwrap());
    let pending = libos.pop(a).unwrap();
    qts.push(pending);
    assert_eq!(libos.wait_all_pushes(&mut qts, 0), Err(Fail::Invalid { details: "Push not done" }));
    assert_eq!(qts.len(), 3);
    qts.pop();
    // The send without a destination failed: it is no send that is done.
    assert_eq!(libos.wait_all_pushes(&mut qts, 0), Err(Fail::Invalid { details: "Push not done" }));
    match libos.wait2(qts[1], 0) {
        Some((fd, OperationResult::Failed(e))) => {
            assert_eq!(fd, a);
            assert_eq!(e, Fail::Malformed { details: "Invalid file descriptor on push" });
        },
        other => panic!("unexpected outcome {:?}", other),
    }
    qts.pop();
    assert_eq!(libos.wait_all_pushes(&mut qts, 0), Ok(()));
    assert!(qts.is_empty());
    match libos.engine.rt.pop_outgoing() {
        Some(Packet::Udp(datagram)) => {
            assert_eq!(datagram.local, Some(here));
            assert_eq!(datagram.remote, there);
            assert_eq!(datagram.payload.as_slice(), &[1, 2, 3]);
        },
        _ => panic!("the datagram should wait to be transmitted"),
    }
    libos.connect(a, there).unwrap();
    let qt = libos.push(a, &sga).unwrap();
    assert!(matches!(libos.wait2(qt, 0), Some((_, OperationResult::Push))));
}

#[test]
fn outcomes_are_packed_by_kind() {
    let record = dmtr_qresult_t::pack(OperationResult::Connect, 3, 77);
    assert_eq!(record.qr_opcode, dmtr_opcode_t::DMTR_OPC_CONNECT);
    assert_eq!((record.qr_qd, record.qr_qt), (3, 77));
    assert!(matches!(record.qr_value, dmtr_qr_value_t::none));
    let record = dmtr_qresult_t::pack(OperationResult::Push, 0xffff_ffff, 1);
    assert_eq!(record.qr_opcode, dmtr_opcode_t::DMTR_OPC_PUSH);
    assert_eq!(record.qr_qd, -1);
    let record = dmtr_qresult_t::pack(OperationResult::Accept(9), 4, 2);
    assert_eq!(record.qr_opcode, dmtr_opcode_t::DMTR_OPC_ACCEPT);
    match record.qr_value {
        dmtr_qr_value_t::ares(ares) => assert_eq!((ares.qd, ares.addr), (9, None)),
        other => panic!("unexpected value {:?}", other),
    }
    let failed = OperationResult::Failed(Fail::Ignored { details: "x" });
    let record = dmtr_qresult_t::pack(failed, 4, 2);
    assert_eq!(record.qr_opcode, dmtr_opcode_t::DMTR_OPC_INVALID);
    let record = dmtr_qresult_t::pack(OperationResult::Pop(None, data(&[1, 2, 3])), 4, 2);
    assert_eq!(record.qr_opcode, dmtr_opcode_t::DMTR_OPC_POP);
    match record.qr_value {
        dmtr_qr_value_t::sga(sga) => {
            assert_eq!(sga.sga_segs.len(), 1);
            assert_eq!(sga.sga_segs[0].sgaseg_len, 3);
        },
        other => panic!("unexpected value {:?}", other),
    }
}

#[test]
fn background_work_is_the_first_operation() {
    let mut libos = libos();
    let background = libos.scheduler.from_raw_handle(0).unwrap();
    assert!(!libos.scheduler.has_completed(&background));
    libos.poll_bg_work(5);
    assert_eq!(libos.rt().now(), 5);
    let _ = Operation::Background;
    // The clock is read every 64 rounds.
    for round in 1..64u64 {
        libos.poll_bg_work(5 + round);
        assert_eq!(libos.rt().now(), 5);
    }
    libos.poll_bg_work(100);
    assert_eq!(libos.rt().now(), 100);
    libos.poll_bg_work(50);
    assert_eq!(libos.rt().now(), 100);
}

/// Carries what one interface queued to the other, as bytes on the wire.
fn carry(from: &mut LibOS, to: &mut LibOS) {
    while let Some(packet) = from.engine.rt.pop_outgoing() {
        let frame = match packet {
            Packet::Tcp(segment) => {
                let mut wire = vec![0u8; segment.compute_size()];
                segment.serialize(&mut wire);
                Frame {
                    protocol: IPPROTO_TCP,
                    src_addr: segment.src.address(),
                    dst_addr: segment.dst.address(),
                    payload: data(&wire),
                }
            },
            Packet::Udp(datagram) => {
                datagram_frame(datagram.local.unwrap(), datagram.remote, datagram.payload.as_slice())
            },
        };
        to.engine.rt.deliver(frame);
    }
}

/// Runs rounds on both sides until the operation behind `qt` on `waiter`
/// has its outcome.
fn resolve(waiter: &mut LibOS, other: &mut LibOS, qt: u64) -> (u32, OperationResult) {
    for round in 0..100u64 {
        if let Some(outcome) = waiter.wait2(qt, round) {
            return outcome;
        }
        carry(waiter, other);
        other.poll_bg_work(round);
        carry(other, waiter);
    }
    panic!("the operation did not finish");
}

#[test]
fn echo_over_the_socket_interface() {
    let mut server = LibOS::new(Runtime::new(0, ALICE_IPV4, options(), 31)).unwrap();
    let mut client = LibOS::new(Runtime::new(0, BOB_IPV4, options(), 32)).unwrap();
    let at = Endpoint::new(ALICE_IPV4, Port::try_from(9000).unwrap());
    let listener = server.socket(libc::AF_INET, libc::SOCK_STREAM, 0).unwrap();
    server.bind(listener, at).unwrap();
    server.listen(listener, 10).unwrap();
    let accept = server.accept(listener).unwrap();

    let fd = client.socket(libc::AF_INET, libc::SOCK_STREAM, 0).unwrap();
    let connect = client.connect(fd, at).unwrap();
    assert!(matches!(resolve(&mut client, &mut server, connect), (_, OperationResult::Connect)));
    let accepted = match resolve(&mut server, &mut client, accept) {
        (from, OperationResult::Accept(new_fd)) => {
            assert_eq!(from, listener);
            new_fd
        },
        other => panic!("unexpected outcome {:?}", other),
    };

    let message: Vec<u8> = (0..1024u32).map(|i| (i % 251) as u8).collect();
    let pop = server.pop(accepted).unwrap();
    let push = client.push2(fd, data(&message)).unwrap();
    assert!(matches!(resolve(&mut client, &mut server, push), (_, OperationResult::Push)));
    let got = match resolve(&mut server, &mut client, pop) {
        (from, OperationResult::Pop(None, bytes)) => {
            assert_eq!(from, accepted);
            bytes
        },
        other => panic!("unexpected outcome {:?}", other),
    };
    assert_eq!(got.as_slice(), message.as_slice());

    let back = client.pop(fd).unwrap();
    let echo = server.push2(accepted, got).unwrap();
    assert!(matches!(resolve(&mut server, &mut client, echo), (_, OperationResult::Push)));
    match resolve(&mut client, &mut server, back) {
        (_, OperationResult::Pop(None, bytes)) => assert_eq!(bytes.as_slice(), message.as_slice()),
        other => panic!("unexpected outcome {:?}", other),
    }
    assert_eq!(client.close(fd), Ok(()));
    assert_eq!(server.close(accepted), Ok(()));
    assert_eq!(server.close(listener), Ok(()));
}

#[test]
fn socket_with_goes_by_the_numbers_it_is_given() {
    let mut libos = libos();
    assert_eq!(libos.socket_with(30, 10, 0, 30, 10, 20), Ok(0));
    assert_eq!(libos.socket_with(30, 20, 0, 30, 10, 20), Ok(1));
    assert_eq!(
        libos.socket_with(31, 10, 0, 30, 10, 20),
        Err(Fail::Invalid { details: "Invalid domain" })
    );
    assert_eq!(
        libos.socket_with(30, 11, 0, 30, 10, 20),
        Err(Fail::Invalid { details: "Invalid socket type" })
    );
    assert_eq!(
        libos.socket_with(30, 10, 1, 30, 10, 20),
        Err(Fail::Invalid { details: "Invalid protocol" })
    );
    // The first is a TCP socket, the second a UDP socket.
    assert_eq!(libos.listen(1, 5), Err(Fail::Malformed { details: "Operation not supported" }));
    assert_eq!(libos.socket_with(30, 10, 0, 30, 10, 20), Ok(2));
}
