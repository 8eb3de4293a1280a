use delay_effects::error::InvalidCapacity;
use delay_effects::fixed::Fixed;
use delay_effects::ring_buffer::RingBuffer;

const ONE: i64 = 1 << 32;

#[test]
fn new_rejects_zero_capacity() {
    assert!(matches!(RingBuffer::<i32>::new(0), Err(InvalidCapacity)));
}

#[test]
fn new_holds_default_values_with_cursors_at_start() {
    let rb = RingBuffer::<i32>::new(5).unwrap();
    assert_eq!(rb.capacity(), 5);
    assert_eq!(rb.len(), 0);
    assert_eq!(rb.get_read_index(), 0);
    assert_eq!(rb.get_write_index(), 0);
    for i in 0..5 {
        assert_eq!(rb.get(i), 0);
    }
}

#[test]
fn push_then_pop_returns_values_in_order() {
    let mut rb = RingBuffer::<i32>::new(4).unwrap();
    rb.push(1);
    rb.push(2);
    rb.push(3);
    assert_eq!(rb.len(), 3);
    assert_eq!(rb.pop(), 1);
    assert_eq!(rb.pop(), 2);
    assert_eq!(rb.len(), 1);
    assert_eq!(rb.capacity(), 4);
}

#[test]
fn put_and_peek_move_no_cursor() {
    let mut rb = RingBuffer::<i32>::new(3).unwrap();
    rb.put(7);
    assert_eq!(rb.peek(), 7);
    rb.put(8);
    assert_eq!(rb.peek(), 8);
    assert_eq!(rb.get_read_index(), 0);
    assert_eq!(rb.get_write_index(), 0);
    assert_eq!(rb.len(), 0);
}

#[test]
fn get_wraps_round_the_store() {
    let mut rb = RingBuffer::<i32>::new(3).unwrap();
    rb.push(10);
    rb.push(20);
    assert_eq!(rb.get(0), 10);
    assert_eq!(rb.get(1), 20);
    assert_eq!(rb.get(3), 10);
    assert_eq!(rb.get(4), 20);
    assert_eq!(rb.get(usize::MAX), rb.get(usize::MAX % 3));
}

#[test]
fn set_indices_are_taken_modulo_capacity() {
    let mut rb = RingBuffer::<i32>::new(4).unwrap();
    rb.set_read_index(6);
    rb.set_write_index(9);
    assert_eq!(rb.get_read_index(), 2);
    assert_eq!(rb.get_write_index(), 1);
    assert_eq!(rb.len(), 3);
}

#[test]
fn push_drops_oldest_when_write_catches_read() {
    let mut rb = RingBuffer::<i32>::new(2).unwrap();
    rb.push(1);
    assert_eq!(rb.get_read_index(), 0);
    rb.push(2);
    assert_eq!(rb.get_write_index(), 0);
    assert_eq!(rb.get_read_index(), 1);
    assert_eq!(rb.len(), 1);
    assert_eq!(rb.peek(), 2);
}

#[test]
fn wraparound_keeps_most_recent_values() {
    for capacity in 1..9usize {
        for extra in 0..20usize {
            let count = capacity + extra;
            let mut rb = RingBuffer::<usize>::new(capacity).unwrap();
            for v in 0..count {
                rb.push(100 + v);
                assert!(rb.len() <= capacity);
            }
            assert_eq!(rb.len(), capacity - 1);
            for i in 0..capacity - 1 {
                assert_eq!(rb.get(i), 100 + count - (capacity - 1) + i);
            }
            assert_eq!(rb.get(capacity - 1), 100 + count - capacity);
        }
    }
}

#[test]
fn wraparound_from_moved_cursors() {
    let mut rb = RingBuffer::<u8>::new(4).unwrap();
    rb.set_read_index(3);
    rb.set_write_index(1);
    for v in 1..=6 {
        rb.push(v);
    }
    assert_eq!(rb.len(), 3);
    assert_eq!(rb.get(0), 4);
    assert_eq!(rb.get(1), 5);
    assert_eq!(rb.get(2), 6);
    assert_eq!(rb.get(3), 3);
}

#[test]
fn reset_zeroes_slots_and_cursors() {
    let mut rb = RingBuffer::<i32>::new(3).unwrap();
    rb.push(4);
    rb.push(5);
    rb.pop();
    rb.reset();
    assert_eq!(rb.get_read_index(), 0);
    assert_eq!(rb.get_write_index(), 0);
    assert_eq!(rb.capacity(), 3);
    for i in 0..3 {
        assert_eq!(rb.get(i), 0);
    }
}

#[test]
fn fractional_read_at_whole_offset_is_plain_read() {
    let mut rb = RingBuffer::<Fixed>::new(4).unwrap();
    for v in [3, -7, 11, 2] {
        rb.push(Fixed::from_raw(v * ONE + 12345));
    }
    rb.set_read_index(0);
    for k in 0..8i32 {
        assert_eq!(rb.get_fractional(Fixed::from_int(k)), rb.get(k as usize));
    }
}

#[test]
fn fractional_read_at_half_is_mean() {
    let mut rb = RingBuffer::<Fixed>::new(3).unwrap();
    rb.push(Fixed::from_int(2));
    rb.push(Fixed::from_int(5));
    rb.push(Fixed::from_raw(-3));
    rb.set_read_index(0);
    assert_eq!(rb.get_fractional(Fixed::from_raw(ONE / 2)), Fixed::from_raw(7 * ONE / 2));
    // Between 5 and a value three steps below zero: the mean, rounded down.
    assert_eq!(
        rb.get_fractional(Fixed::from_raw(ONE + ONE / 2)),
        Fixed::from_raw((5 * ONE - 3).div_euclid(2))
    );
    // From the last slot round to the first.
    assert_eq!(
        rb.get_fractional(Fixed::from_raw(2 * ONE + ONE / 2)),
        Fixed::from_raw((2 * ONE - 3).div_euclid(2))
    );
}

#[test]
fn fractional_read_at_quarter() {
    let mut rb = RingBuffer::<Fixed>::new(2).unwrap();
    rb.push(Fixed::from_int(0));
    rb.push(Fixed::from_int(8));
    rb.set_read_index(0);
    assert_eq!(rb.get_fractional(Fixed::from_raw(ONE / 4)), Fixed::from_int(2));
    assert_eq!(rb.get_fractional(Fixed::from_raw(ONE + ONE / 4)), Fixed::from_int(6));
}

#[test]
fn fractional_read_takes_negative_offsets_round() {
    let mut rb = RingBuffer::<Fixed>::new(4).unwrap();
    for v in [10, 20, 30, 40] {
        rb.push(Fixed::from_int(v));
    }
    rb.set_read_index(0);
    assert_eq!(rb.get_fractional(Fixed::from_int(-1)), Fixed::from_int(40));
    assert_eq!(rb.get_fractional(Fixed::from_int(-5)), Fixed::from_int(40));
    assert_eq!(rb.get_fractional(Fixed::from_raw(-ONE / 2)), Fixed::from_int(25));
    assert_eq!(rb.get_fractional(Fixed::from_raw(-ONE - ONE / 2)), Fixed::from_int(35));
    assert_eq!(rb.get_fractional(Fixed::from_raw(i64::MIN)), rb.get(0));
}
