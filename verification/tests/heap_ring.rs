use ring_buffer::heap_ring::RingBuffer;

#[test]
fn new_buffer_is_empty() {
    let rb = RingBuffer::new(8);
    assert_eq!(rb.head, 0);
    assert_eq!(rb.tail, 0);
    assert!(rb.is_empty());
    assert!(!rb.is_full());
}

#[test]
fn empty_peek_and_pop_give_zero() {
    let mut rb = RingBuffer::new(8);
    assert_eq!(rb.peek(), 0);
    assert_eq!(rb.pop(), 0);
    assert_eq!(rb.head, 0);
}

#[test]
fn words_come_out_in_order() {
    let mut rb = RingBuffer::new(8);
    rb.push(0xDEAD_BEEF);
    rb.push(7);
    assert!(rb.is_full());
    assert_eq!(rb.peek(), 0xDEAD_BEEF);
    assert_eq!(rb.pop(), 0xDEAD_BEEF);
    assert_eq!(rb.pop(), 7);
    assert!(rb.is_empty());
    assert_eq!(rb.head, 8);
    assert_eq!(rb.tail, 8);
}

#[test]
fn push_on_full_changes_nothing() {
    let mut rb = RingBuffer::new(4);
    rb.push(1);
    assert!(rb.is_full());
    rb.push(2);
    assert_eq!(rb.tail, 4);
    assert_eq!(rb.pop(), 1);
}

#[test]
fn words_wrap_around() {
    let mut rb = RingBuffer::new(8);
    rb.push(1);
    rb.push(2);
    assert_eq!(rb.pop(), 1);
    rb.push(0x0102_0304);
    assert_eq!(rb.pop(), 2);
    assert_eq!(rb.pop(), 0x0102_0304);
}

#[test]
fn word_straddles_the_end_when_capacity_is_not_a_multiple_of_four() {
    let mut rb = RingBuffer::new(6);
    rb.push(0x1122_3344);
    assert_eq!(rb.pop(), 0x1122_3344);
    rb.push(0x5566_7788);
    assert_eq!(rb.peek(), 0x5566_7788);
    assert_eq!(rb.pop(), 0x5566_7788);
}

#[test]
fn capacity_not_a_multiple_of_four_lets_a_push_overwrite_the_head() {
    let mut rb = RingBuffer::new(6);
    rb.push(0x0102_0304);
    // tail - head == 4 != 6, so the buffer is not full and the next word
    // wraps over the first two bytes of the first
    rb.push(0x0A0B_0C0D);
    assert_eq!(rb.peek(), 0x0C0D_0304);
}

#[test]
fn peek_works_for_any_head_counter() {
    let mut rb = RingBuffer::new(8);
    rb.push(0x0102_0304);
    rb.head = 4_294_967_293;
    rb.tail = 4_294_967_295;
    // slots 5, 6, 7 and 0 hold 0, 0, 0 and 1
    assert_eq!(rb.peek(), 1);
    assert_eq!(rb.head, 4_294_967_293);
}
