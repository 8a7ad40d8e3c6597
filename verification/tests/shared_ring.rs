use ring_buffer::RingBuffer;

fn region(capacity: usize) -> Vec<u8> {
    vec![0u8; 8 + capacity]
}

#[test]
fn it_works() {}

#[test]
fn new_reads_counters_from_header() {
    let mut bytes = region(4);
    bytes[0..4].copy_from_slice(&[0, 0, 1, 2]);
    bytes[4..8].copy_from_slice(&[0, 0, 1, 5]);
    let rb = RingBuffer::new(4, 9, &mut bytes[..]);
    assert_eq!(rb.get_head(), 258);
    assert_eq!(rb.get_tail(), 261);
    assert_eq!(rb.shm_id(), 9);
}

#[test]
fn counters_are_big_endian_in_header() {
    let mut bytes = region(4);
    {
        let mut rb = RingBuffer::new(4, 0, &mut bytes[..]);
        rb.set_head(0x0102_0304);
        rb.set_tail(0x0A0B_0C0D);
        assert_eq!(rb.get_head(), 0x0102_0304);
        assert_eq!(rb.get_tail(), 0x0A0B_0C0D);
    }
    assert_eq!(&bytes[0..8], &[1, 2, 3, 4, 10, 11, 12, 13]);
}

#[test]
fn push_then_pop_is_first_in_first_out() {
    let mut bytes = region(3);
    let mut rb = RingBuffer::new(3, 0, &mut bytes[..]);
    assert!(rb.is_empty());
    assert_eq!(rb.push(10), 0);
    assert_eq!(rb.push(20), 0);
    assert_eq!(rb.peek(), 10);
    assert_eq!(rb.pop(), 10);
    assert_eq!(rb.pop(), 20);
    assert!(rb.is_empty());
    assert_eq!(rb.get_head(), 2);
    assert_eq!(rb.get_tail(), 2);
}

#[test]
fn push_stores_byte_at_tail_slot() {
    let mut bytes = region(3);
    {
        let mut rb = RingBuffer::new(3, 0, &mut bytes[..]);
        rb.push(7);
        rb.push(8);
    }
    assert_eq!(bytes, vec![0, 0, 0, 0, 0, 0, 0, 2, 7, 8, 0]);
}

#[test]
fn full_after_capacity_pushes_and_wraps() {
    let mut bytes = region(2);
    {
        let mut rb = RingBuffer::new(2, 0, &mut bytes[..]);
        rb.push(1);
        assert!(!rb.is_full());
        rb.push(2);
        assert!(rb.is_full());
        assert_eq!(rb.pop(), 1);
        assert!(!rb.is_full());
        rb.push(3);
        assert!(rb.is_full());
        assert_eq!(rb.pop(), 2);
        assert_eq!(rb.pop(), 3);
        assert!(rb.is_empty());
    }
    // position 2 lands in slot 2 % 2 == 0, over the first byte
    assert_eq!(&bytes[8..10], &[3, 2]);
}

#[test]
fn peek_leaves_buffer_unchanged() {
    let mut bytes = region(4);
    let mut rb = RingBuffer::new(4, 0, &mut bytes[..]);
    rb.push(42);
    assert_eq!(rb.peek(), 42);
    assert_eq!(rb.peek(), 42);
    assert_eq!(rb.get_head(), 0);
    assert_eq!(rb.get_tail(), 1);
}

#[test]
fn counters_continue_from_a_reopened_region() {
    let mut bytes = region(4);
    {
        let mut rb = RingBuffer::new(4, 0, &mut bytes[..]);
        rb.push(5);
        rb.push(6);
        rb.pop();
    }
    let mut rb = RingBuffer::new(4, 0, &mut bytes[..]);
    assert_eq!(rb.get_head(), 1);
    assert_eq!(rb.get_tail(), 2);
    assert_eq!(rb.pop(), 6);
}

#[test]
fn region_of_only_capacity_bytes_keeps_order_while_slots_fit() {
    // ten bytes for capacity ten: positions 0 and 1 have slots 8 and 9
    let mut bytes = vec![0u8; 10];
    let mut rb = RingBuffer::new(10, 0, &mut bytes[..]);
    rb.push(3);
    rb.push(4);
    assert_eq!(rb.peek(), 3);
    assert_eq!(rb.peek(), 3);
    assert_eq!(rb.pop(), 3);
    assert_eq!(rb.pop(), 4);
    assert!(rb.is_empty());
}
