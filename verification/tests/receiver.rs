use catnip::fail::Fail;
use catnip::operations::Poll;
use catnip::protocols::tcp::receiver::{Receiver, ReceiverState};
use catnip::runtime::{BufferPool, WakeQueue};
use catnip::sync::{BufEnum, Bytes, BytesMut, Waker};
use std::rc::Rc;

fn segment(len: usize, fill: u8) -> Bytes {
    let mut buf = BytesMut::zeroed(len);
    for i in 0..len {
        buf.set(i, fill.wrapping_add(i as u8));
    }
    buf.freeze()
}

fn collect(receiver: &mut Receiver) -> Vec<u8> {
    let mut all = Vec::new();
    while let Ok(Some(bytes)) = receiver.recv() {
        all.extend_from_slice(bytes.as_slice());
    }
    all
}

#[test]
fn reordered_segments_are_delivered_in_stream_order() {
    let mut receiver = Receiver::new(1000, 65535, 0);
    let mut pool = BufferPool::new();
    let mut wakes = WakeQueue::new();
    let first = segment(50, 1);
    let second = segment(50, 101);
    let mut expected = first.as_slice().to_vec();
    expected.extend_from_slice(second.as_slice());

    let early = receiver.receive_data(1050, second, 0, &mut pool, &mut wakes);
    assert_eq!(early, Err(Fail::Ignored { details: "Out of order segment (reordered)" }));
    assert_eq!(receiver.recv(), Ok(None));
    let done = receiver.receive_data(1000, first, 0, &mut pool, &mut wakes);
    assert_eq!(done, Ok(()));

    let one = receiver.recv().unwrap().unwrap();
    let two = receiver.recv().unwrap().unwrap();
    assert_eq!(one.len(), 50);
    assert_eq!(two.len(), 50);
    let mut got = one.as_slice().to_vec();
    got.extend_from_slice(two.as_slice());
    assert_eq!(got, expected);
    assert_eq!(receiver.recv(), Ok(None));
}

#[test]
fn duplicate_segment_is_ignored() {
    let mut receiver = Receiver::new(7, 1000, 0);
    let mut pool = BufferPool::new();
    let mut wakes = WakeQueue::new();
    let data = segment(10, 3);
    assert_eq!(receiver.receive_data(7, data.clone(), 0, &mut pool, &mut wakes), Ok(()));
    assert_eq!(receiver.current_ack(), Some(17));
    assert_eq!(
        receiver.receive_data(7, data.clone(), 1, &mut pool, &mut wakes),
        Err(Fail::Ignored { details: "Out of order segment (duplicate)" })
    );
    assert_eq!(receiver.current_ack(), Some(17));
    assert_eq!(receiver.window_size(), 990);
    assert_eq!(collect(&mut receiver), data.as_slice().to_vec());
}

#[test]
fn segment_beyond_the_window_is_ignored_without_a_leak() {
    let mut receiver = Receiver::new(0, 64, 0);
    let mut pool = BufferPool::new();
    let mut wakes = WakeQueue::new();
    assert_eq!(receiver.receive_data(0, segment(60, 0), 0, &mut pool, &mut wakes), Ok(()));

    let store = Rc::new(vec![9u8; 5]);
    assert_eq!(Rc::strong_count(&store), 1);
    let view = Bytes::from_obj(BufEnum::Rust(store.clone()));
    assert_eq!(Rc::strong_count(&store), 2);
    assert_eq!(
        receiver.receive_data(60, view, 0, &mut pool, &mut wakes),
        Err(Fail::Ignored { details: "Full receive window" })
    );
    assert_eq!(Rc::strong_count(&store), 1);
    assert_eq!(receiver.window_size(), 4);
    assert_eq!(receiver.current_ack(), Some(60));
    assert_eq!(pool.available(), 0);
    assert_eq!(collect(&mut receiver).len(), 60);
}

#[test]
fn seventeenth_out_of_order_segment_evicts_the_highest() {
    let mut receiver = Receiver::new(0, 100_000, 0);
    let mut pool = BufferPool::new();
    let mut wakes = WakeQueue::new();
    // Sixteen segments of ten bytes at 20, 30, .. 170, then one at 10.
    for i in 0..16u32 {
        let seq = 20 + 10 * i;
        assert_eq!(
            receiver.receive_data(seq, segment(10, seq as u8), 0, &mut pool, &mut wakes),
            Err(Fail::Ignored { details: "Out of order segment (reordered)" })
        );
    }
    assert_eq!(
        receiver.receive_data(10, segment(10, 10), 0, &mut pool, &mut wakes),
        Err(Fail::Ignored { details: "Out of order segment (reordered)" })
    );
    // The segment at 0 lets every stored segment follow: all but the one at
    // 170, which was the highest and had to leave.
    assert_eq!(receiver.receive_data(0, segment(10, 0), 0, &mut pool, &mut wakes), Ok(()));
    assert_eq!(receiver.current_ack(), Some(170));
    let mut count = 0;
    let mut next = 0u32;
    while let Ok(Some(bytes)) = receiver.recv() {
        assert_eq!(bytes.len(), 10);
        assert_eq!(bytes.as_slice()[0], next as u8);
        next += 10;
        count += 1;
    }
    assert_eq!(count, 17);
}

#[test]
fn closed_receiver_refuses_data() {
    let mut receiver = Receiver::new(5, 100, 0);
    let mut pool = BufferPool::new();
    let mut wakes = WakeQueue::new();
    receiver.receive_fin();
    assert_eq!(
        receiver.receive_data(5, segment(1, 0), 0, &mut pool, &mut wakes),
        Err(Fail::ResourceNotFound { details: "Receiver closed" })
    );
    assert_eq!(receiver.recv(), Err(Fail::ResourceNotFound { details: "Receiver closed" }));
    assert_eq!(
        receiver.peek().err(),
        Some(Fail::ResourceNotFound { details: "Receiver closed" })
    );
}

#[test]
fn accepted_segment_wakes_the_reader() {
    let mut receiver = Receiver::new(5, 100, 0);
    let mut pool = BufferPool::new();
    let mut wakes = WakeQueue::new();
    assert!(matches!(receiver.poll_recv(&Waker::new(42)), Poll::Pending));
    assert_eq!(receiver.receive_data(5, segment(3, 0), 0, &mut pool, &mut wakes), Ok(()));
    assert_eq!(wakes.drain(), vec![42]);
    match receiver.poll_recv(&Waker::new(42)) {
        Poll::Ready(Ok(bytes)) => assert_eq!(bytes.len(), 3),
        _ => panic!("the segment should be at hand"),
    }
    assert_eq!(
        receiver.peek().err(),
        Some(Fail::ResourceExhausted { details: "No available data" })
    );
}

#[test]
fn acknowledgment_deadline_is_armed_once_and_cleared_by_the_acknowledgment() {
    let mut receiver = Receiver::new(100, 1000, 3);
    let mut pool = BufferPool::new();
    let mut wakes = WakeQueue::new();
    assert_eq!(receiver.state(), ReceiverState::Open);
    assert_eq!(receiver.ack_deadline(), None);
    assert_eq!(receiver.current_ack(), None);
    assert_eq!(receiver.receive_data(100, segment(10, 0), 1_000, &mut pool, &mut wakes), Ok(()));
    assert_eq!(receiver.ack_deadline(), Some(500_001_000));
    assert_eq!(receiver.receive_data(110, segment(10, 0), 2_000, &mut pool, &mut wakes), Ok(()));
    assert_eq!(receiver.ack_deadline(), Some(500_001_000));
    assert_eq!(receiver.recv_seq_no(), 120);
    receiver.ack_sent(120);
    assert_eq!(receiver.ack_deadline(), None);
    assert_eq!(receiver.current_ack(), None);
    // The deadline stays within the range of the clock.
    assert_eq!(
        receiver.receive_data(120, segment(1, 0), u64::MAX - 5, &mut pool, &mut wakes),
        Ok(())
    );
    assert_eq!(receiver.ack_deadline(), Some(u64::MAX));
}

#[test]
fn receiver_only_moves_forwards() {
    let mut receiver = Receiver::new(0, 10, 0);
    receiver.fin_acked();
    assert_eq!(receiver.state(), ReceiverState::Open);
    receiver.receive_fin();
    assert_eq!(receiver.state(), ReceiverState::ReceivedFin);
    receiver.receive_fin();
    assert_eq!(receiver.state(), ReceiverState::ReceivedFin);
    receiver.fin_acked();
    assert_eq!(receiver.state(), ReceiverState::AckdFin);
    receiver.receive_fin();
    assert_eq!(receiver.state(), ReceiverState::AckdFin);
}

#[test]
fn sequence_numbers_wrap_in_the_receiver() {
    let mut receiver = Receiver::new(u32::MAX - 4, 100, 0);
    let mut pool = BufferPool::new();
    let mut wakes = WakeQueue::new();
    assert_eq!(
        receiver.receive_data(u32::MAX - 4, segment(10, 1), 0, &mut pool, &mut wakes),
        Ok(())
    );
    assert_eq!(receiver.recv_seq_no(), 5);
    assert_eq!(receiver.window_size(), 90);
    assert_eq!(receiver.receive_data(5, segment(10, 2), 0, &mut pool, &mut wakes), Ok(()));
    assert_eq!(receiver.window_size(), 80);
    assert_eq!(collect(&mut receiver).len(), 20);
    assert_eq!(receiver.window_size(), 100);
}

#[test]
fn stored_segment_that_no_longer_fits_is_let_go() {
    let mut receiver = Receiver::new(0, 15, 0);
    let mut pool = BufferPool::new();
    let mut wakes = WakeQueue::new();
    assert_eq!(
        receiver.receive_data(10, segment(10, 2), 0, &mut pool, &mut wakes),
        Err(Fail::Ignored { details: "Out of order segment (reordered)" })
    );
    assert_eq!(receiver.receive_data(0, segment(10, 1), 0, &mut pool, &mut wakes), Ok(()));
    assert_eq!(receiver.recv_seq_no(), 10);
    assert_eq!(collect(&mut receiver).len(), 10);
    // The store is empty again: the segment comes in as new.
    assert_eq!(receiver.receive_data(10, segment(10, 2), 0, &mut pool, &mut wakes), Ok(()));
}

#[test]
fn future_segment_across_the_wrap_is_stored() {
    let mut receiver = Receiver::new(0xffff_fff0, 65535, 0);
    let mut pool = BufferPool::new();
    let mut wakes = WakeQueue::new();
    let later = segment(16, 200);
    let later_bytes = later.as_slice().to_vec();
    assert_eq!(
        receiver.receive_data(0x10, later, 0, &mut pool, &mut wakes),
        Err(Fail::Ignored { details: "Out of order segment (reordered)" })
    );
    assert_eq!(receiver.recv_seq_no(), 0xffff_fff0);
    assert_eq!(receiver.receive_data(0xffff_fff0, segment(32, 1), 0, &mut pool, &mut wakes), Ok(()));
    assert_eq!(receiver.recv_seq_no(), 0x20);
    assert_eq!(receiver.current_ack(), Some(0x20));
    let first = receiver.recv().unwrap().unwrap();
    assert_eq!(first.len(), 32);
    let last = receiver.recv().unwrap().unwrap();
    assert_eq!(last.as_slice(), later_bytes.as_slice());
    assert_eq!(receiver.recv(), Ok(None));
}

#[test]
fn swapped_pair_across_the_wrap_is_reordered() {
    let mut receiver = Receiver::new(0xffff_ffe0, 65535, 0);
    let mut pool = BufferPool::new();
    let mut wakes = WakeQueue::new();
    let first = segment(50, 1);
    let second = segment(50, 101);
    let mut expected = first.as_slice().to_vec();
    expected.extend_from_slice(second.as_slice());
    assert_eq!(
        receiver.receive_data(0x12, second, 0, &mut pool, &mut wakes),
        Err(Fail::Ignored { details: "Out of order segment (reordered)" })
    );
    assert_eq!(receiver.recv(), Ok(None));
    assert_eq!(receiver.receive_data(0xffff_ffe0, first, 0, &mut pool, &mut wakes), Ok(()));
    assert_eq!(receiver.recv_seq_no(), 0x44);
    assert_eq!(collect(&mut receiver), expected);
}

#[test]
fn acknowledgment_is_due_after_the_wrap() {
    let mut receiver = Receiver::new(0xffff_fff0, 65535, 0);
    let mut pool = BufferPool::new();
    let mut wakes = WakeQueue::new();
    assert_eq!(receiver.current_ack(), None);
    assert_eq!(receiver.receive_data(0xffff_fff0, segment(32, 1), 0, &mut pool, &mut wakes), Ok(()));
    assert_eq!(receiver.current_ack(), Some(0x10));
    receiver.ack_sent(0x10);
    assert_eq!(receiver.current_ack(), None);
}

#[test]
fn half_the_space_ahead_counts_as_behind() {
    let mut receiver = Receiver::new(0, 65535, 0);
    let mut pool = BufferPool::new();
    let mut wakes = WakeQueue::new();
    assert_eq!(
        receiver.receive_data(0x7fff_ffff, segment(4, 1), 0, &mut pool, &mut wakes),
        Err(Fail::Ignored { details: "Out of order segment (reordered)" })
    );
    assert_eq!(
        receiver.receive_data(0x8000_0000, segment(4, 1), 0, &mut pool, &mut wakes),
        Err(Fail::Ignored { details: "Out of order segment (duplicate)" })
    );
    assert_eq!(
        receiver.receive_data(0xffff_ffff, segment(4, 1), 0, &mut pool, &mut wakes),
        Err(Fail::Ignored { details: "Out of order segment (duplicate)" })
    );
    assert_eq!(receiver.recv_seq_no(), 0);
    assert_eq!(receiver.recv(), Ok(None));
}

#[test]
fn seventeenth_segment_across_the_wrap_evicts_the_farthest() {
    let start = 0xffff_ff80u32;
    let mut receiver = Receiver::new(start, 100_000, 0);
    let mut pool = BufferPool::new();
    let mut wakes = WakeQueue::new();
    // Sixteen segments of ten bytes from twenty bytes ahead on, which reach
    // over the wrap, then the one ten bytes ahead.
    for i in 0..16u32 {
        let seq = start.wrapping_add(20 + 10 * i);
        assert_eq!(
            receiver.receive_data(seq, segment(10, i as u8), 0, &mut pool, &mut wakes),
            Err(Fail::Ignored { details: "Out of order segment (reordered)" })
        );
    }
    assert_eq!(
        receiver.receive_data(start.wrapping_add(10), segment(10, 99), 0, &mut pool, &mut wakes),
        Err(Fail::Ignored { details: "Out of order segment (reordered)" })
    );
    assert_eq!(receiver.receive_data(start, segment(10, 98), 0, &mut pool, &mut wakes), Ok(()));
    // All follow but the one that was furthest ahead, 170 bytes on.
    assert_eq!(receiver.recv_seq_no(), start.wrapping_add(170));
    assert_eq!(collect(&mut receiver).len(), 170);
}
