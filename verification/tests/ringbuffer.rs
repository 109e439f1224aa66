use kernel_ipc::ringbuffer::RingBuffer;

#[test]
fn new_ring_is_empty() {
    let rb: RingBuffer<u32> = RingBuffer::new(4);
    assert!(rb.is_empty());
    assert!(!rb.is_full());
    assert_eq!(rb.len(), 0);
    assert_eq!(rb.capacity(), 4);
    assert_eq!(rb.peek(), None);
}

#[test]
fn push_then_pop_gives_item_back() {
    let mut rb: RingBuffer<u32> = RingBuffer::new(3);
    assert_eq!(rb.push(7), Ok(()));
    assert_eq!(rb.peek(), Some(&7));
    assert_eq!(rb.len(), 1);
    assert_eq!(rb.pop(), Some(7));
    assert!(rb.is_empty());
    assert_eq!(rb.pop(), None);
}

#[test]
fn items_leave_in_fifo_order() {
    let mut rb: RingBuffer<u32> = RingBuffer::new(3);
    assert_eq!(rb.push(1), Ok(()));
    assert_eq!(rb.push(2), Ok(()));
    assert_eq!(rb.pop(), Some(1));
    assert_eq!(rb.push(3), Ok(()));
    assert_eq!(rb.pop(), Some(2));
    assert_eq!(rb.pop(), Some(3));
    assert_eq!(rb.pop(), None);
}

#[test]
fn full_ring_refuses_and_returns_item() {
    let mut rb: RingBuffer<u32> = RingBuffer::new(2);
    assert_eq!(rb.push(10), Ok(()));
    assert_eq!(rb.push(20), Ok(()));
    assert!(rb.is_full());
    assert!(!rb.is_empty());
    assert_eq!(rb.len(), 2);
    assert_eq!(rb.push(30), Err(30));
    assert_eq!(rb.len(), 2);
    assert_eq!(rb.pop(), Some(10));
    assert!(!rb.is_full());
    assert_eq!(rb.pop(), Some(20));
}

#[test]
fn ring_wraps_around_many_times() {
    let mut rb: RingBuffer<u32> = RingBuffer::new(3);
    let mut next_in: u32 = 0;
    let mut next_out: u32 = 0;
    for round in 0..20u32 {
        let pushes = 1 + round % 3;
        for _ in 0..pushes {
            if rb.push(next_in).is_ok() {
                next_in += 1;
            }
        }
        assert!(rb.len() <= rb.capacity());
        let pops = 1 + (round + 1) % 3;
        for _ in 0..pops {
            match rb.pop() {
                Some(v) => {
                    assert_eq!(v, next_out);
                    next_out += 1;
                }
                None => assert!(rb.is_empty()),
            }
        }
    }
    assert_eq!(rb.len() as u32, next_in - next_out);
}

#[test]
fn len_counts_across_the_wrap() {
    let mut rb: RingBuffer<u8> = RingBuffer::new(4);
    for i in 0..4u8 {
        assert_eq!(rb.push(i), Ok(()));
    }
    assert_eq!(rb.pop(), Some(0));
    assert_eq!(rb.pop(), Some(1));
    assert_eq!(rb.push(4), Ok(()));
    assert_eq!(rb.len(), 3);
    assert_eq!(rb.peek(), Some(&2));
}

#[test]
fn capacity_one_ring() {
    let mut rb: RingBuffer<u8> = RingBuffer::new(1);
    assert_eq!(rb.push(5), Ok(()));
    assert!(rb.is_full());
    assert_eq!(rb.push(6), Err(6));
    assert_eq!(rb.pop(), Some(5));
    assert!(rb.is_empty());
    assert!(!rb.is_full());
}

#[test]
fn pushed_sequence_pops_in_order_then_none() {
    let mut rb: RingBuffer<u32> = RingBuffer::new(4);
    assert_eq!(rb.push(100), Ok(()));
    assert_eq!(rb.push(101), Ok(()));
    assert_eq!(rb.pop(), Some(100));
    assert_eq!(rb.pop(), Some(101));
    assert!(rb.is_empty());
    let s = [1u32, 2, 3, 4];
    for x in s {
        assert_eq!(rb.push(x), Ok(()));
    }
    for x in s {
        assert_eq!(rb.pop(), Some(x));
    }
    assert_eq!(rb.pop(), None);
}
