use sheepy_delay::ringbuffer::RingBuffer;

/// Drains the buffer and returns everything it held, oldest first.
fn drain(buffer: &mut RingBuffer<i32>) -> Vec<i32> {
    let mut out: Vec<i32> = Vec::new();
    while let Some(value) = buffer.pop() {
        out.push(value);
    }
    out
}

#[test]
fn capacity_three_keeps_last_three() {
    let mut buffer: RingBuffer<i32> = RingBuffer::new(3);
    buffer.push(1);
    buffer.push(2);
    buffer.push(3);
    buffer.push(4);
    assert_eq!(drain(&mut buffer), vec![2, 3, 4]);
}

#[test]
fn capacity_three_push_pop_scenario() {
    let mut buffer: RingBuffer<i32> = RingBuffer::new(3);
    buffer.push(1);
    buffer.push(2);
    buffer.push(3);
    buffer.push(4);
    buffer.push(5);
    assert_eq!(buffer.pop(), Some(3));
    assert_eq!(drain(&mut buffer), vec![4, 5]);
}

#[test]
fn pop_on_empty_returns_none() {
    let mut buffer: RingBuffer<i32> = RingBuffer::new(4);
    assert_eq!(buffer.pop(), None);
    buffer.push(7);
    assert_eq!(buffer.pop(), Some(7));
    assert_eq!(buffer.pop(), None);
}

#[test]
fn long_run_of_pushes_keeps_most_recent_in_order() {
    let mut buffer: RingBuffer<i32> = RingBuffer::new(2);
    for value in 0..10 {
        buffer.push(value);
    }
    assert_eq!(drain(&mut buffer), vec![8, 9]);
}

#[test]
fn pushes_below_capacity_keep_everything() {
    let mut buffer: RingBuffer<i32> = RingBuffer::new(5);
    buffer.push(10);
    buffer.push(20);
    assert_eq!(drain(&mut buffer), vec![10, 20]);
}

#[test]
fn cleared_buffer_matches_fresh_buffer() {
    let mut cleared: RingBuffer<i32> = RingBuffer::new(3);
    cleared.push(9);
    cleared.push(8);
    cleared.push(7);
    cleared.push(6);
    cleared.clear();

    let mut fresh: RingBuffer<i32> = RingBuffer::new(3);

    for value in [1, 2, 3, 4] {
        cleared.push(value);
        fresh.push(value);
    }
    assert_eq!(drain(&mut cleared), drain(&mut fresh));
}

#[test]
fn clear_on_empty_is_a_no_op() {
    let mut buffer: RingBuffer<i32> = RingBuffer::new(3);
    buffer.clear();
    assert_eq!(buffer.pop(), None);
    buffer.push(1);
    assert_eq!(drain(&mut buffer), vec![1]);
}

#[test]
fn capacity_one_always_keeps_the_newest() {
    let mut buffer: RingBuffer<i32> = RingBuffer::new(1);
    buffer.push(1);
    buffer.push(2);
    buffer.push(3);
    assert_eq!(buffer.pop(), Some(3));
    assert_eq!(buffer.pop(), None);
}
