use syncpool::buffer::{
    BufOp, BufferSlice, ByteBuffer, SliceError, WorkQueue, WorkerOp, DEFAULT_GROWTH, QUEUE_DEPTH,
};

#[test]
fn init_makes_clear_buffers() {
    let mut pool = ByteBuffer::init(10, 3);
    assert_eq!(pool.size(), 10);
    assert_eq!(pool.available(), 10);
    assert_eq!(pool.default_capacity(), 3);
    let slice = pool.slice();
    assert_eq!(slice.id(), 9);
    assert_eq!(slice.len(), 3);
    assert_eq!(slice.read(), Some(&[0u8, 0, 0][..]));
    assert_eq!(pool.available(), 9);
}

#[test]
fn a_written_slice_reads_back() {
    let mut pool = ByteBuffer::init(10, 3);
    let mut buffer = pool.slice();
    buffer.as_writable().copy_from_slice(&[0b101, 0b101, 0b101]);
    assert_eq!(buffer.read().unwrap(), [0b101, 0b101, 0b101]);
    assert_eq!(buffer.read_as_vec().unwrap(), &vec![5u8, 5, 5]);
    assert_eq!(buffer.copy_to_vec(), vec![5u8, 5, 5]);
}

#[test]
fn try_slice_fails_when_nothing_is_free() {
    let mut pool = ByteBuffer::init(2, 4);
    let one = pool.try_slice().unwrap();
    let two = pool.try_slice().unwrap();
    assert_eq!((one.id(), two.id()), (1, 0));
    assert!(pool.try_slice().is_none());
    assert_eq!(pool.size(), 2);
    pool.release(one);
    assert_eq!(pool.try_slice().unwrap().id(), 1);
}

#[test]
fn slice_grows_the_pool_when_nothing_is_free() {
    let mut pool = ByteBuffer::init(1, 2);
    let _held = pool.slice();
    let grown = pool.slice();
    assert_eq!(pool.size(), 1 + DEFAULT_GROWTH);
    assert_eq!(grown.id(), DEFAULT_GROWTH);
    assert_eq!(pool.available(), DEFAULT_GROWTH - 1);
    assert_eq!(grown.copy_to_vec(), vec![0u8, 0]);
}

#[test]
fn extend_adds_free_buffers() {
    let mut pool = ByteBuffer::init(0, 8);
    assert_eq!(pool.extend(3), 2);
    assert_eq!(pool.size(), 3);
    assert_eq!(pool.available(), 3);
    assert_eq!(pool.extend(1), 3);
    assert_eq!(pool.slice().id(), 3);
}

#[test]
fn released_buffers_are_cleared() {
    let mut pool = ByteBuffer::init(1, 4);
    let mut slice = pool.slice();
    slice.as_writable_vec().extend_from_slice(&[1, 2, 3]);
    slice.as_writable()[0] = 9;
    assert_eq!(slice.len(), 7);
    pool.release(slice);
    assert_eq!(pool.available(), 1);
    let again = pool.slice();
    assert_eq!(again.copy_to_vec(), vec![0u8; 4]);
}

#[test]
fn foreign_buffers_are_kept_up_to_the_limit() {
    let mut pool = ByteBuffer::init(1, 2);
    pool.set_size_limit(2);
    pool.release(BufferSlice::new(0, vec![7, 7, 7], false));
    assert_eq!(pool.size(), 2);
    assert_eq!(pool.available(), 2);
    pool.release(BufferSlice::new(0, vec![7], false));
    assert_eq!(pool.size(), 2);
    // a slice that claims a place that is not on loan is a foreign one too
    pool.release(BufferSlice::new(0, vec![1, 1], true));
    assert_eq!(pool.size(), 2);
    assert_eq!(pool.available(), 2);
    assert_eq!(pool.slice().copy_to_vec(), vec![0u8, 0]);
}

#[test]
fn reset_clears_a_written_slice_only() {
    let mut untouched = BufferSlice::new(0, vec![1, 2, 3], false);
    untouched.reset();
    assert_eq!(untouched.copy_to_vec(), vec![1u8, 2, 3]);
    let mut written = BufferSlice::new(0, vec![1, 2, 3], false);
    written.as_writable()[1] = 8;
    written.reset();
    assert_eq!(written.copy_to_vec(), vec![0u8, 0, 0]);
}

#[test]
fn text_has_to_be_utf8() {
    let text = BufferSlice::new(0, "héllo".as_bytes().to_vec(), false);
    assert_eq!(text.try_into_string(), Ok("héllo"));
    let empty = BufferSlice::new(0, Vec::new(), false);
    assert_eq!(empty.try_into_string(), Ok(""));
    let broken = BufferSlice::new(0, vec![0xff, 0xfe], false);
    assert_eq!(broken.try_into_string(), Err(SliceError::InvalidData));
    let cut = BufferSlice::new(0, vec![0xc3], false);
    assert_eq!(cut.try_into_string(), Err(SliceError::InvalidData));
}

#[test]
fn manage_does_what_is_asked() {
    let mut pool = ByteBuffer::init(1, 2);
    let one = pool.manage(BufOp::Reserve(false)).unwrap();
    assert!(pool.manage(BufOp::Reserve(false)).is_none());
    let two = pool.manage(BufOp::Reserve(true)).unwrap();
    assert_eq!((one.id(), two.id()), (0, DEFAULT_GROWTH));
    assert_eq!(pool.size(), 1 + DEFAULT_GROWTH);
    assert!(pool.manage(BufOp::Release(one)).is_none());
    assert_eq!(pool.available(), DEFAULT_GROWTH);
    assert!(pool.manage(BufOp::Extend(2)).is_none());
    assert_eq!(pool.size(), 3 + DEFAULT_GROWTH);
    assert!(pool.manage(BufOp::ReleaseAndExtend(vec![1, 2, 3])).is_none());
    assert_eq!(pool.size(), 4 + DEFAULT_GROWTH);
    assert_eq!(pool.slice().copy_to_vec(), vec![0u8, 0]);
    drop(two);
}

#[test]
fn slices_travel_back_through_the_queue() {
    let mut pool = ByteBuffer::init(10, 3);
    let queue = WorkQueue::new();
    let mut slices: Vec<_> = (0..10).map(|_| pool.slice()).collect();
    assert_eq!(pool.available(), 0);
    for slice in slices.iter_mut() {
        slice.as_writable()[0] = 1;
    }
    // the queue takes eight slices and turns the ninth away
    let ninth = slices.pop().unwrap();
    let tenth = slices.pop().unwrap();
    for slice in slices {
        assert!(queue.reset_and_release(slice).is_none());
    }
    let back = queue.reset_and_release(ninth).unwrap();
    assert_eq!(back.id(), 0);
    assert_eq!(back.copy_to_vec(), vec![1u8, 0, 0]);
    assert!(!queue.shutdown());
    // the worker takes them back, cleared
    assert!(pool.handle_work(&queue));
    assert_eq!(pool.available(), QUEUE_DEPTH);
    assert!(pool.handle_work(&queue));
    assert_eq!(pool.available(), QUEUE_DEPTH);
    assert_eq!(pool.slice().copy_to_vec(), vec![0u8, 0, 0]);
    // a shutdown stops the worker, and what waits behind it stays in the queue
    assert!(queue.shutdown());
    assert!(queue.reset_and_release(tenth).is_none());
    assert!(!pool.handle_work(&queue));
    assert_eq!(pool.available(), QUEUE_DEPTH - 1);
    assert!(pool.handle_work(&queue));
    assert_eq!(pool.available(), QUEUE_DEPTH);
    drop(back);
}

#[test]
fn a_worker_message_is_served() {
    let mut pool = ByteBuffer::init(1, 1);
    let slice = pool.slice();
    assert!(pool.handle_message(WorkerOp::Cleanup(slice)));
    assert_eq!(pool.available(), 1);
    assert!(!pool.handle_message(WorkerOp::Shutdown));
    assert_eq!(pool.available(), 1);
}

#[test]
fn the_answer_of_the_queue_decides_what_comes_back() {
    let slice = BufferSlice::new(4, vec![1, 2], true);
    let back = WorkQueue::returned(Some(WorkerOp::Cleanup(slice))).unwrap();
    assert_eq!(back.id(), 4);
    assert_eq!(back.copy_to_vec(), vec![1u8, 2]);
    assert!(WorkQueue::returned(Some(WorkerOp::Shutdown)).is_none());
    assert!(WorkQueue::returned(None).is_none());
    assert!(WorkQueue::accepted(&None));
    assert!(!WorkQueue::accepted(&Some(WorkerOp::Shutdown)));
    assert!(!WorkQueue::accepted(&Some(WorkerOp::Cleanup(BufferSlice::new(0, Vec::new(), false)))));
}
