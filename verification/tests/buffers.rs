use catnip::runtime::{BufferPool, PacketBuf, ALLOC_SIZE, PKTBUF_SIZE};
use catnip::sync::{sole_bytes, BufEnum, Bytes, BytesMut, Mbuf, SharedWaker, Waker, WakerU64};
use std::rc::Rc;

fn counting(len: usize) -> Vec<u8> {
    (0..len).map(|i| i as u8).collect()
}

#[test]
fn split_yields_two_views_of_the_same_store() {
    let store = Rc::new(counting(10));
    let whole = Bytes::from_obj(BufEnum::Rust(store.clone()));
    assert_eq!(Rc::strong_count(&store), 2);
    let (head, tail) = whole.split(4);
    assert_eq!(Rc::strong_count(&store), 3);
    assert_eq!(head.len(), 4);
    assert_eq!(tail.len(), 6);
    assert_eq!(head.as_slice(), &[0, 1, 2, 3]);
    assert_eq!(tail.as_slice(), &[4, 5, 6, 7, 8, 9]);
    let mut joined = head.as_slice().to_vec();
    joined.extend_from_slice(tail.as_slice());
    assert_eq!(joined, counting(10));

    // Dropping one view leaves the other as it was.
    drop(head);
    assert_eq!(Rc::strong_count(&store), 2);
    assert_eq!(tail.as_slice(), &[4, 5, 6, 7, 8, 9]);
    // The store goes when the last view has gone.
    let watcher = Rc::downgrade(&store);
    drop(store);
    assert!(watcher.upgrade().is_some());
    drop(tail);
    assert!(watcher.upgrade().is_none());
}

#[test]
fn split_at_the_ends() {
    let whole = BytesMut::from_slice(&counting(5)).freeze();
    let (all, nothing) = whole.clone().split(5);
    assert_eq!(all.as_slice(), counting(5).as_slice());
    assert!(nothing.is_empty());
    let (nothing, all) = whole.split(0);
    assert!(nothing.is_empty());
    assert_eq!(all.as_slice(), counting(5).as_slice());
    let (a, b) = Bytes::empty().split(0);
    assert!(a.is_empty() && b.is_empty());
}

#[test]
fn clone_shares_the_store_without_copying() {
    let store = Rc::new(counting(3));
    let view = Bytes::from_obj(BufEnum::Rust(store.clone()));
    let copy = view.clone();
    assert_eq!(Rc::strong_count(&store), 3);
    assert_eq!(copy, view);
    assert_eq!(copy.as_slice().as_ptr(), view.as_slice().as_ptr());
    assert_eq!(Bytes::empty(), Bytes::empty());
    assert_ne!(copy, Bytes::empty());
}

#[test]
fn take_buffer_needs_the_only_view() {
    let view = BytesMut::from_slice(&counting(8)).freeze();
    let copy = view.clone();
    assert!(view.take_buffer().is_none());
    match copy.take_buffer() {
        Some(BufEnum::Rust(store)) => {
            assert_eq!(Rc::strong_count(&store), 1);
            assert_eq!(store.as_slice(), counting(8).as_slice());
        },
        other => panic!("unexpected store {:?}", other),
    }
    assert!(Bytes::empty().take_buffer().is_none());
}

#[test]
fn take_buffer_unsafe_gives_store_and_place() {
    let (_, tail) = BytesMut::from_slice(&counting(8)).freeze().split(3);
    let (store, offset, len) = tail.take_buffer_unsafe();
    assert_eq!(offset, 3);
    assert_eq!(len, 5);
    assert_eq!(store.len(), 8);
    assert_eq!(store.as_slice(), counting(8).as_slice());
}

#[test]
fn bytes_mut_is_written_and_frozen() {
    let mut buf = BytesMut::zeroed(6);
    assert_eq!(buf.as_slice(), &[0; 6]);
    buf.set(0, 9);
    buf.write_at(2, &[1, 2, 3]);
    assert_eq!(buf.as_slice(), &[9, 0, 1, 2, 3, 0]);
    assert_eq!(buf.len(), 6);
    assert_eq!(buf, BytesMut::from_slice(&[9, 0, 1, 2, 3, 0]));
    let frozen = buf.freeze();
    assert_eq!(frozen.as_slice(), &[9, 0, 1, 2, 3, 0]);
}

#[test]
fn from_buf_needs_the_only_handle() {
    let store = Rc::new(counting(4));
    let other = store.clone();
    assert!(BytesMut::from_buf(store).is_none());
    let owned = BytesMut::from_buf(other).unwrap();
    assert_eq!(owned.as_slice(), counting(4).as_slice());
}

#[test]
fn mbuf_window_moves() {
    let mut mbuf = Mbuf::new(17, counting(10));
    assert_eq!(mbuf.handle(), 17);
    assert_eq!(mbuf.len(), 10);
    mbuf.adjust(2);
    assert_eq!(mbuf.as_slice(), &[2, 3, 4, 5, 6, 7, 8, 9]);
    mbuf.trim(3);
    assert_eq!(mbuf.as_slice(), &[2, 3, 4, 5, 6]);
    let shared = mbuf.clone();
    assert_eq!(shared.as_slice(), mbuf.as_slice());
    assert!(mbuf.into_unique().is_none());
    let only = shared.into_unique().unwrap();
    assert_eq!(only.handle(), 17);
    assert_eq!(only.as_slice(), &[2, 3, 4, 5, 6]);
}

#[test]
fn pool_takes_back_what_is_unshared_and_fits() {
    let mut pool = BufferPool::new();
    // Shared: stays with the other view.
    let view = BytesMut::zeroed(ALLOC_SIZE).freeze();
    let keep = view.clone();
    pool.donate_buffer(view);
    assert_eq!(pool.available(), 0);
    // Unshared and of the pool's size: kept.
    let mut marked = BytesMut::zeroed(ALLOC_SIZE);
    marked.set(0, 42);
    pool.donate_buffer(marked.freeze());
    pool.donate_buffer(keep);
    assert_eq!(pool.available(), 2);
    // Of another size: let go.
    pool.donate_buffer(BytesMut::zeroed(100).freeze());
    assert_eq!(pool.available(), 2);
    // A driver buffer: noted for the driver.
    pool.donate_buffer(Bytes::from_obj(BufEnum::DPDK(Mbuf::new(5, counting(64)))));
    pool.donate_buffer(Bytes::empty());
    assert_eq!(pool.take_released(), vec![5]);
    assert_eq!(pool.take_released(), Vec::<u64>::new());

    let again = pool.take();
    assert_eq!(again.len(), ALLOC_SIZE);
    assert_eq!(again.as_slice()[0], 0);
    let again = pool.take();
    assert_eq!(again.as_slice()[0], 42);
    assert_eq!(pool.available(), 0);
    assert_eq!(pool.take().as_slice(), vec![0u8; ALLOC_SIZE].as_slice());
    assert_eq!(BufferPool::with_stores(3).available(), 3);
}

#[test]
fn packet_buf_window_moves_over_its_frame() {
    let mut frame = Box::new([0u8; 1514]);
    for i in 0..PKTBUF_SIZE {
        frame[i] = i as u8;
    }
    let whole = PacketBuf::new(frame);
    assert_eq!(whole.len(), PKTBUF_SIZE);
    let body = whole.split(14);
    assert_eq!(body.len(), 1500);
    assert_eq!(body.as_slice()[0], 14);
    let short = body.trim(100);
    assert_eq!(short.len(), 100);
    assert_eq!(short.as_slice()[99], 113);
    let wider = short.unsplit_left(14).unwrap();
    assert_eq!(wider.len(), 114);
    assert_eq!(wider.as_slice()[0], 0);
    assert!(wider.unsplit_left(1).is_none());
}

#[test]
fn packet_buf_is_written_through_its_window() {
    let mut body = PacketBuf::zeroed().split(14);
    body.set(0, 7);
    body.set(1499, 9);
    assert_eq!(body.as_slice()[0], 7);
    assert_eq!(body.as_slice()[1499], 9);
    assert_ne!(body, PacketBuf::zeroed().split(14));
    assert_eq!(PacketBuf::zeroed().split(1), PacketBuf::zeroed().trim(1513));
    let whole = body.unsplit_left(14).unwrap();
    assert_eq!(whole.as_slice()[14], 7);
    assert_eq!(whole.as_slice()[13], 0);
    assert_eq!(whole.into_buf().unwrap()[1513], 9);
}

#[test]
fn packet_buf_grows_to_the_right_within_its_frame() {
    let short = PacketBuf::zeroed().split(14).trim(100);
    let padded = short.unsplit_right(1400).unwrap();
    assert_eq!(padded.len(), 1500);
    assert!(padded.unsplit_right(1).is_none());
    assert!(PacketBuf::empty().unsplit_right(0).is_none());
    assert_eq!(PacketBuf::empty().unsplit_left(0).unwrap().len(), 0);
    assert_eq!(PacketBuf::empty().split(0).len(), 0);
    assert!(PacketBuf::empty().into_buf().is_none());
    assert_eq!(PacketBuf::zeroed().into_buf().unwrap().len(), PKTBUF_SIZE);
}

#[test]
fn waker_slot_holds_one_waker() {
    let mut slot = SharedWaker::new();
    assert_eq!(slot.wake(), None);
    slot.register(&Waker::new(1));
    slot.register(&Waker::new(1));
    slot.register(&Waker::new(2));
    assert_eq!(slot.wake(), Some(Waker::new(2)));
    assert_eq!(slot.wake(), None);
    assert!(Waker::new(3).will_wake(&Waker::new(3)));
    assert!(!Waker::new(3).will_wake(&Waker::new(4)));
}

#[test]
fn notification_word_behaves_like_an_atomic() {
    let mut word = WakerU64::new(0b0101);
    word.fetch_or(0b0011);
    assert_eq!(word.load(), 0b0111);
    word.fetch_and(0b0110);
    assert_eq!(word.load(), 0b0110);
    assert_eq!(word.fetch_add(10), 6);
    assert_eq!(word.fetch_sub(1), 16);
    assert_eq!(word.swap(99), 15);
    assert_eq!(word.load(), 99);
}

#[test]
fn sole_bytes_follow_the_unwrapping() {
    let store = Rc::new(counting(3));
    let other = store.clone();
    assert_eq!(sole_bytes(Rc::try_unwrap(store)), None);
    assert_eq!(sole_bytes(Rc::try_unwrap(other)), Some(vec![0, 1, 2]));
    assert_eq!(sole_bytes(Ok(vec![9])), Some(vec![9]));
    assert_eq!(sole_bytes(Err(Rc::new(vec![9]))), None);
}

#[test]
fn mbuf_comes_back_only_to_its_last_holder() {
    let mbuf = Mbuf::new(5, counting(6));
    let other = mbuf.clone();
    assert!(mbuf.into_unique().is_none());
    let only = other.into_unique().unwrap();
    assert_eq!(only.handle(), 5);
    assert_eq!(only.as_slice(), counting(6).as_slice());
}

#[test]
fn unsplit_left_undoes_the_split() {
    let mut frame = Box::new([0u8; 1514]);
    for i in 0..PKTBUF_SIZE {
        frame[i] = (i % 251) as u8;
    }
    let all = frame.to_vec();
    let body = PacketBuf::new(frame).split(14);
    assert_eq!(body.offset(), 14);
    let whole = body.unsplit_left(14).unwrap();
    assert_eq!(whole.offset(), 0);
    assert_eq!(whole.len(), 1514);
    assert_eq!(whole.as_slice(), all.as_slice());
    let body = whole.split(14);
    assert!(body.unsplit_left(15).is_none());
    assert_eq!(PacketBuf::empty().offset(), 0);
}

#[test]
fn unsplit_right_shows_the_bytes_of_the_frame() {
    let mut frame = Box::new([0u8; 1514]);
    for i in 0..PKTBUF_SIZE {
        frame[i] = (i % 251) as u8;
    }
    let all = frame.to_vec();
    let short = PacketBuf::new(frame).split(14).trim(100);
    let wider = short.unsplit_right(50).unwrap();
    assert_eq!(wider.offset(), 14);
    assert_eq!(wider.as_slice(), &all[14..164]);
}

#[test]
fn parts_of_a_cut_view_know_their_place() {
    let store = Rc::new(counting(10));
    let whole = Bytes::from_obj(BufEnum::Rust(store));
    assert_eq!(whole.offset(), 0);
    let (head, tail) = whole.split(4);
    assert_eq!(head.offset(), 0);
    assert_eq!(tail.offset(), 4);
    let (middle, end) = tail.split(6);
    assert_eq!(middle.offset(), 4);
    assert_eq!(end.offset(), 0);
    assert_eq!(end.len(), 0);
    let (store, offset, len) = middle.take_buffer_unsafe();
    assert_eq!((offset, len), (4, 6));
    assert_eq!(&store.as_slice()[offset..offset + len], &[4, 5, 6, 7, 8, 9]);
}
