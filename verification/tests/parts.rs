use catnip::collections::Table;
use catnip::fail::Fail;
use catnip::file_table::{File, FileTable};
use catnip::protocols::tcp::out_of_order::OutOfOrder;
use catnip::protocols::tcp::sender::{Retransmit, Sender, SenderState};
use catnip::protocols::tcp::{seq_advance, seq_gap};
use catnip::protocols::ip::Port;
use catnip::protocols::ipv4::Endpoint;
use catnip::protocols::udp::OutgoingReq;
use catnip::runtime::{
    BufferPool, Frame, Packet, Runtime, TcpOptions, Timer, TimerRc, WakeQueue, IPPROTO_UDP,
};
use catnip::sync::{Bytes, BytesMut, Waker};
use catnip::tracing::{dump, init, log};
use std::rc::Rc;

fn data(len: usize, fill: u8) -> Bytes {
    let mut buf = BytesMut::zeroed(len);
    for i in 0..len {
        buf.set(i, fill);
    }
    buf.freeze()
}

#[test]
fn table_keeps_each_value_under_its_key() {
    let mut table: Table<String> = Table::new();
    assert!(!table.contains_key(1));
    assert_eq!(table.insert(1, "one".to_string()), None);
    assert_eq!(table.insert(2, "two".to_string()), None);
    assert_eq!(table.insert(1, "uno".to_string()), Some("one".to_string()));
    assert_eq!(table.get(1), Some(&"uno".to_string()));
    assert_eq!(table.get(2), Some(&"two".to_string()));
    assert_eq!(table.get(3), None);
    assert_eq!(table.remove(1), Some("uno".to_string()));
    assert_eq!(table.remove(1), None);
    assert!(!table.contains_key(1));
    assert!(table.contains_key(2));
    assert_eq!(table.insert(u128::MAX, "max".to_string()), None);
    assert_eq!(table.insert(3, "three".to_string()), None);
    assert_eq!(table.get(2), Some(&"two".to_string()));
    assert_eq!(table.get(u128::MAX), Some(&"max".to_string()));
    assert_eq!(table.remove(3), Some("three".to_string()));
}

#[test]
fn file_table_hands_out_the_lowest_vacant_descriptor() {
    let mut files = FileTable::new();
    assert_eq!(files.alloc_fd(File::TcpSocket), Ok(0));
    assert_eq!(files.alloc_fd(File::UdpSocket), Ok(1));
    assert_eq!(files.alloc_fd(File::TcpSocket), Ok(2));
    assert_eq!(files.get(1), Some(File::UdpSocket));
    assert_eq!(files.get(3), None);
    assert_eq!(files.free(1), Some(File::UdpSocket));
    assert_eq!(files.free(1), None);
    assert_eq!(files.free(9), None);
    assert_eq!(files.get(1), None);
    assert_eq!(files.free(0), Some(File::TcpSocket));
    assert_eq!(files.alloc_fd(File::UdpSocket), Ok(0));
    assert_eq!(files.alloc_fd(File::UdpSocket), Ok(1));
    assert_eq!(files.alloc_fd(File::UdpSocket), Ok(3));
}

#[test]
fn out_of_order_store_evicts_from_the_top() {
    let mut store = OutOfOrder::new();
    assert_eq!(store.len(), 0);
    assert!(store.evict_farthest(0).is_none());
    assert!(store.insert(30, data(3, 3)).is_none());
    assert!(store.insert(10, data(1, 1)).is_none());
    assert!(store.insert(20, data(2, 2)).is_none());
    assert_eq!(store.insert(20, data(5, 5)).map(|b| b.len()), Some(2));
    assert_eq!(store.len(), 3);
    assert!(store.contains_key(10));
    assert!(!store.contains_key(11));
    assert_eq!(store.evict_farthest(0).map(|(k, b)| (k, b.len())), Some((30, 3)));
    assert_eq!(store.evict_farthest(0).map(|(k, b)| (k, b.len())), Some((20, 5)));
    assert_eq!(store.remove(10).map(|b| b.len()), Some(1));
    assert!(store.remove(10).is_none());
    assert_eq!(store.len(), 0);
}

#[test]
fn sequence_numbers_wrap_around() {
    assert_eq!(seq_advance(10, 5), 15);
    assert_eq!(seq_advance(0xffff_fff0, 0x20), 0x10);
    assert_eq!(seq_gap(10, 15), 5);
    assert_eq!(seq_gap(0xffff_fff0, 0x10), 0x20);
    assert_eq!(seq_gap(15, 10), 0xffff_fffb);
}

#[test]
fn sender_keeps_what_is_not_acknowledged() {
    let mut pool = BufferPool::new();
    let mut sender = Sender::new(1000, 100);
    assert_eq!(sender.state(), SenderState::Established);
    assert_eq!(sender.send(&data(40, 1), 5), Ok(1000));
    assert_eq!(sender.send(&data(40, 2), 6), Ok(1040));
    assert_eq!(
        sender.send(&data(40, 3), 7),
        Err(Fail::ResourceExhausted { details: "Send window full" })
    );
    assert_eq!(sender.sent_seq_no(), 1080);
    assert!(matches!(sender.retransmit(1_000_000_004), Retransmit::Nothing));
    match sender.retransmit(1_000_000_005) {
        Retransmit::Data(seq, bytes) => {
            assert_eq!(seq, 1000);
            assert_eq!(bytes.as_slice(), data(40, 1).as_slice());
        },
        _ => panic!("the first segment is due"),
    }
    assert!(matches!(sender.retransmit(1_000_000_006), Retransmit::Nothing));

    assert_eq!(
        sender.remote_ack(2000, 100, 10, &mut pool),
        Err(Fail::Ignored { details: "Acknowledgment out of range" })
    );
    // An acknowledgment inside a segment covers the segments before it.
    assert_eq!(sender.remote_ack(1050, 200, 2_000_000_100, &mut pool), Ok(()));
    match sender.retransmit(3_000_000_100) {
        Retransmit::Data(seq, bytes) => {
            assert_eq!(seq, 1040);
            assert_eq!(bytes.as_slice(), data(40, 2).as_slice());
        },
        _ => panic!("the second segment is due"),
    }
    assert_eq!(sender.send(&data(100, 4), 8), Ok(1080));
    assert_eq!(sender.remote_ack(1180, 200, 9, &mut pool), Ok(()));
    assert!(matches!(sender.retransmit(u64::MAX), Retransmit::Nothing));
}

#[test]
fn sender_closes_with_a_fin() {
    let mut pool = BufferPool::new();
    let mut sender = Sender::new(u32::MAX, 10);
    assert_eq!(sender.send(&data(2, 1), 0), Ok(u32::MAX));
    assert_eq!(sender.close(1), Ok(1));
    assert_eq!(sender.state(), SenderState::FinWait);
    assert_eq!(sender.close(1), Err(Fail::ResourceNotFound { details: "Sender closed" }));
    assert_eq!(sender.send(&data(1, 1), 2), Err(Fail::ResourceNotFound { details: "Sender closed" }));
    assert_eq!(sender.sent_seq_no(), 2);
    assert_eq!(sender.remote_ack(1, 10, 3, &mut pool), Ok(()));
    assert_eq!(sender.state(), SenderState::FinWait);
    assert!(matches!(sender.retransmit(2_000_000_000), Retransmit::Fin(1)));
    assert_eq!(sender.remote_ack(2, 10, 4, &mut pool), Ok(()));
    assert_eq!(sender.state(), SenderState::Closed);
    assert!(matches!(sender.retransmit(u64::MAX), Retransmit::Nothing));
}

#[test]
fn acknowledged_stores_go_back_to_the_pool() {
    let mut pool = BufferPool::new();
    let mut sender = Sender::new(0, 0xffff);
    let big = data(12288, 7);
    assert_eq!(sender.send(&big, 0), Ok(0));
    drop(big);
    assert_eq!(sender.remote_ack(12288, 0xffff, 1, &mut pool), Ok(()));
    assert_eq!(pool.available(), 1);
}

#[test]
fn clock_never_runs_backwards() {
    let mut timer = Timer::new(10);
    timer.advance_clock(20);
    assert_eq!(timer.now(), 20);
    timer.advance_clock(15);
    assert_eq!(timer.now(), 20);
    let shared = TimerRc(Rc::new(timer));
    assert_eq!(shared.timer().now(), 20);
}

#[test]
fn wake_queue_keeps_the_order_of_waking() {
    let mut wakes = WakeQueue::new();
    wakes.wake(Waker::new(3));
    wakes.wake_if(None);
    wakes.wake_if(Some(Waker::new(1)));
    assert_eq!(wakes.drain(), vec![3, 1]);
    assert_eq!(wakes.drain(), Vec::<u64>::new());
}

#[test]
fn log_is_bounded() {
    let mut state = init(2, 100);
    log(&mut state, "a", 150);
    log(&mut state, "b", 90);
    log(&mut state, "c", 200);
    log(&mut state, "d", 300);
    let (events, overflow) = dump(state);
    assert_eq!(events, vec![("a", 50), ("b", 0)]);
    assert_eq!(overflow, 2);
    let (events, overflow) = dump(init(0, 0));
    assert!(events.is_empty());
    assert_eq!(overflow, 0);
}

#[test]
fn runtime_queues_keep_their_order() {
    let options = TcpOptions { receive_window_size: 1000, window_scale: 0 };
    let mut rt = Runtime::new(5, 0x0a00_0001, options, 1);
    assert_eq!(rt.now(), 5);
    rt.advance_clock(9);
    rt.advance_clock(7);
    assert_eq!(rt.now(), 9);
    assert!(rt.receive().is_none());
    assert!(rt.pop_outgoing().is_none());
    for i in 1..=3u8 {
        rt.deliver(Frame { protocol: IPPROTO_UDP, src_addr: 1, dst_addr: 2, payload: data(1, i) });
        rt.transmit(Packet::Udp(OutgoingReq {
            local: None,
            remote: Endpoint::new(3, Port::try_from(4).unwrap()),
            payload: data(2, i),
        }));
    }
    for i in 1..=3u8 {
        assert_eq!(rt.receive().unwrap().payload.as_slice(), &[i]);
        match rt.pop_outgoing() {
            Some(Packet::Udp(datagram)) => assert_eq!(datagram.payload.as_slice(), &[i, i]),
            _ => panic!("a datagram should wait to be transmitted"),
        }
    }
    assert!(rt.receive().is_none());
    let _ = rt.rng_gen();
    rt.donate_buffer(data(12288, 0));
    assert_eq!(rt.pool.available(), 1);
}

#[test]
fn out_of_order_store_evicts_the_farthest_across_the_wrap() {
    let mut store = OutOfOrder::new();
    assert!(store.insert(0xffff_fff8, data(1, 1)).is_none());
    assert!(store.insert(0x30, data(3, 3)).is_none());
    assert!(store.insert(0x10, data(2, 2)).is_none());
    // Seen from 0xfffffff0 the numbers beyond the wrap are the higher ones.
    let from = 0xffff_fff0;
    assert_eq!(store.evict_farthest(from).map(|(k, b)| (k, b.len())), Some((0x30, 3)));
    assert_eq!(store.evict_farthest(from).map(|(k, b)| (k, b.len())), Some((0x10, 2)));
    assert_eq!(store.evict_farthest(from).map(|(k, b)| (k, b.len())), Some((0xffff_fff8, 1)));
    assert!(store.evict_farthest(from).is_none());
}

#[test]
fn out_of_order_store_keeps_what_lies_behind_to_the_last() {
    let mut store = OutOfOrder::new();
    assert!(store.insert(50, data(1, 1)).is_none());
    assert!(store.insert(150, data(2, 2)).is_none());
    assert!(store.insert(0x8000_0064, data(3, 3)).is_none());
    // Seen from 100, the number 50 lies behind, and so does the number half
    // the space away: it is the farthest behind of all.
    assert_eq!(store.evict_farthest(100).map(|(k, _)| k), Some(150));
    assert_eq!(store.evict_farthest(100).map(|(k, _)| k), Some(50));
    assert_eq!(store.evict_farthest(100).map(|(k, _)| k), Some(0x8000_0064));
}
