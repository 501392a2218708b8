use netbricks::state::ring_buffer::{RingBuffer, StateError, PAGE_SIZE};
use netbricks::state::tcp_window::{InsertResult, WindowInternal, WindowResult};

#[test]
fn ring_size_must_be_power_of_two() {
    assert!(matches!(RingBuffer::new(3), Err(StateError::InvalidRingSize(3))));
    assert!(matches!(RingBuffer::new(6), Err(StateError::InvalidRingSize(6))));
    let one = RingBuffer::new(1).unwrap();
    assert_eq!(PAGE_SIZE, one.len());
    let four = RingBuffer::new(4).unwrap();
    assert_eq!(4 * PAGE_SIZE, four.len());
    assert_eq!(0, four.available());
}

#[test]
fn ring_write_then_read_in_order() {
    let mut ring = RingBuffer::new(1).unwrap();
    assert_eq!(5, ring.write_at_tail(&[1, 2, 3, 4, 5]));
    assert_eq!(3, ring.write_at_tail(&[6, 7, 8]));
    assert_eq!(8, ring.available());
    let mut out = [0u8; 6];
    assert_eq!(6, ring.read_from_head(&mut out));
    assert_eq!([1, 2, 3, 4, 5, 6], out);
    assert_eq!(2, ring.available());
    let mut rest = [9u8; 4];
    assert_eq!(2, ring.read_from_head(&mut rest));
    assert_eq!([7, 8, 9, 9], rest);
    assert_eq!(0, ring.available());
}

#[test]
fn ring_keeps_one_slot_free() {
    let mut ring = RingBuffer::new(1).unwrap();
    let big = vec![7u8; PAGE_SIZE];
    assert_eq!(PAGE_SIZE - 1, ring.write_at_tail(&big));
    assert_eq!(PAGE_SIZE - 1, ring.available());
    assert_eq!(0, ring.write_at_tail(&[1]));
}

#[test]
fn ring_wraps_round_the_end() {
    let mut ring = RingBuffer::new(1).unwrap();
    let fill = vec![0u8; PAGE_SIZE - 2];
    assert_eq!(PAGE_SIZE - 2, ring.write_at_tail(&fill));
    let mut sink = vec![0u8; PAGE_SIZE - 2];
    assert_eq!(PAGE_SIZE - 2, ring.read_from_head(&mut sink));
    assert_eq!(4, ring.write_at_tail(&[10, 11, 12, 13]));
    let mut out = [0u8; 4];
    assert_eq!(4, ring.read_from_head(&mut out));
    assert_eq!([10, 11, 12, 13], out);
    // the last two bytes went to the end of the storage, the rest to its start
    let mut raw = [0u8; 2];
    assert_eq!(2, ring.read_from_offset(0, &mut raw));
    assert_eq!([12, 13], raw);
}

#[test]
fn ring_peek_with_smaller_increment() {
    let mut ring = RingBuffer::new(1).unwrap();
    ring.write_at_tail(&[1, 2, 3, 4]);
    let mut out = [0u8; 3];
    assert_eq!(3, ring.read_from_head_with_increment(&mut out, 1));
    assert_eq!([1, 2, 3], out);
    assert_eq!(3, ring.available());
    assert_eq!(3, ring.read_from_head(&mut out));
    assert_eq!([2, 3, 4], out);
}

#[test]
fn ring_seek_and_clear() {
    let mut ring = RingBuffer::new(1).unwrap();
    ring.write_at_tail(&[1, 2, 3, 4]);
    ring.seek_head(2);
    let mut out = [0u8; 2];
    assert_eq!(2, ring.read_from_head(&mut out));
    assert_eq!([3, 4], out);
    ring.seek_tail(10);
    assert_eq!(10, ring.available());
    ring.clear();
    assert_eq!(0, ring.available());
}

#[test]
fn ring_out_of_order_write_then_fill_gap() {
    let mut ring = RingBuffer::new(1).unwrap();
    // bytes 3 to 5 arrive first, then 0 to 2
    assert_eq!(3, ring.write_at_offset_from_tail(3, &[4, 5, 6]));
    assert_eq!(0, ring.available());
    assert_eq!(3, ring.write_at_tail(&[1, 2, 3]));
    ring.seek_tail(3);
    let mut out = [0u8; 6];
    assert_eq!(6, ring.read_from_head(&mut out));
    assert_eq!([1, 2, 3, 4, 5, 6], out);
    // beyond the room nothing is written
    assert_eq!(0, ring.write_at_offset_from_tail(PAGE_SIZE, &[1]));
}

#[test]
fn ring_offset_write_and_read() {
    let mut ring = RingBuffer::new(1).unwrap();
    assert_eq!(3, ring.write_at_offset(PAGE_SIZE - 1, &[1, 2, 3]));
    let mut out = [0u8; 3];
    assert_eq!(3, ring.read_from_offset(PAGE_SIZE - 1, &mut out));
    assert_eq!([1, 2, 3], out);
    let mut start = [0u8; 2];
    ring.read_from_offset(0, &mut start);
    assert_eq!([2, 3], start);
}

#[test]
fn window_fills_in_any_order() {
    let mut window = WindowInternal::new(8);
    window.reset(100);
    assert_eq!(None, window.compute_offset(108));
    assert_eq!(Some(3), window.compute_offset(103));
    assert_eq!(9, window.compute_offset_unchecked(109));

    let r = window.insert_at_seq(104, &[5, 6, 7, 8]);
    assert_eq!(InsertResult { result: WindowResult::Inserted, length: 0 }, r);
    let r = window.insert_at_seq(100, &[1, 2]);
    assert_eq!(InsertResult { result: WindowResult::Inserted, length: 2 }, r);
    let r = window.insert_at_seq(102, &[3, 4]);
    assert_eq!(InsertResult { result: WindowResult::Completed, length: 8 }, r);
    assert!(window.complete);
    assert_eq!(vec![1, 2, 3, 4, 5, 6, 7, 8], window.data);
}

#[test]
fn window_refuses_outside_and_trims_at_end() {
    let mut window = WindowInternal::new(4);
    let r = window.insert_at_seq(4, &[1]);
    assert_eq!(WindowResult::Failed, r.result);
    assert_eq!(0, r.length);
    let r = window.insert_at_seq(2, &[9, 9, 9, 9]);
    assert_eq!(InsertResult { result: WindowResult::Inserted, length: 0 }, r);
    assert_eq!(vec![0, 0, 9, 9], window.data);
    window.reset(0);
    assert!(!window.complete);
    assert_eq!(vec![0, 0, 9, 9], window.data);
}

use netbricks::state::reordered_buffer::{round_to_power_of_2, InsertionResult, ReorderedBuffer};

#[test]
fn rounds_to_powers_of_two() {
    assert_eq!(0, round_to_power_of_2(0));
    assert_eq!(1, round_to_power_of_2(1));
    assert_eq!(4, round_to_power_of_2(3));
    assert_eq!(4096, round_to_power_of_2(4096));
    assert_eq!(8192, round_to_power_of_2(4097));
}

#[test]
fn reordered_in_order_stream() {
    let mut buffer = ReorderedBuffer::new(100).unwrap();
    assert_eq!(128, buffer.buffer_size());
    assert!(!buffer.is_established());
    let mut out = [0u8; 8];
    assert_eq!(0, buffer.read_data(&mut out));
    assert_eq!(InsertionResult::Inserted { written: 3, available: 3 }, buffer.seq(100, &[1, 2, 3]));
    assert!(buffer.is_established());
    assert_eq!(InsertionResult::Inserted { written: 2, available: 5 }, buffer.add_data(103, &[4, 5]));
    assert_eq!(5, buffer.available());
    assert_eq!(5, buffer.read_data(&mut out));
    assert_eq!([1, 2, 3, 4, 5], out[..5]);
    assert_eq!(0, buffer.available());
}

#[test]
fn reordered_gap_fills_in_order() {
    let mut buffer = ReorderedBuffer::new(64).unwrap();
    assert_eq!(InsertionResult::Inserted { written: 0, available: 0 }, buffer.seq(1000, &[]));
    // bytes 5 to 7 come first
    assert_eq!(InsertionResult::Inserted { written: 3, available: 0 }, buffer.add_data(1005, &[6, 7, 8]));
    // then bytes 10 and 11, beyond a second gap
    assert_eq!(InsertionResult::Inserted { written: 2, available: 0 }, buffer.add_data(1010, &[11, 12]));
    let mut out = [0u8; 16];
    assert_eq!(0, buffer.read_data(&mut out));
    // the first gap closes: the tail moves over bytes 0 to 7; out of order,
    // the larger of the 5 bytes written and the 3 bytes the tail moved on
    // over is reported
    assert_eq!(InsertionResult::Inserted { written: 5, available: 8 }, buffer.add_data(1000, &[1, 2, 3, 4, 5]));
    // the second gap closes: 2 bytes written, 2 more moved over
    assert_eq!(InsertionResult::Inserted { written: 2, available: 12 }, buffer.add_data(1008, &[9, 10]));
    assert_eq!(12, buffer.read_data(&mut out));
    assert_eq!([1, 2, 3, 4, 5, 6, 7, 8, 9, 10, 11, 12], out[..12]);
}

#[test]
fn reordered_old_bytes_are_dropped() {
    let mut buffer = ReorderedBuffer::new(64).unwrap();
    buffer.seq(10, &[1, 2, 3, 4]);
    // entirely before the tail
    assert_eq!(InsertionResult::Inserted { written: 0, available: 4 }, buffer.add_data(8, &[9, 9]));
    // reaching past the tail: only the new part counts
    assert_eq!(InsertionResult::Inserted { written: 2, available: 6 }, buffer.add_data(12, &[9, 9, 5, 6]));
    let mut out = [0u8; 6];
    assert_eq!(6, buffer.read_data(&mut out));
    assert_eq!([1, 2, 3, 4, 5, 6], out);
}

#[test]
fn reordered_sequence_numbers_wrap() {
    let mut buffer = ReorderedBuffer::new(64).unwrap();
    buffer.seq(u32::MAX - 1, &[1, 2]);
    assert_eq!(InsertionResult::Inserted { written: 2, available: 4 }, buffer.add_data(0, &[3, 4]));
    let mut out = [0u8; 4];
    assert_eq!(4, buffer.read_data(&mut out));
    assert_eq!([1, 2, 3, 4], out);
}

#[test]
fn reordered_reset_closes() {
    let mut buffer = ReorderedBuffer::new_with_segments(64, 4).unwrap();
    buffer.seq(1, &[1]);
    buffer.reset();
    assert!(!buffer.is_established());
    assert_eq!(0, buffer.available());
    assert_eq!(InsertionResult::Inserted { written: 1, available: 1 }, buffer.seq(7, &[7]));
}

#[test]
fn reordered_buffer_holds_no_more_than_its_size() {
    let mut buffer = ReorderedBuffer::new(4096).unwrap();
    assert_eq!(4096, buffer.buffer_size());
    let data = [0u8; 5000];
    // one slot of the ring stays free
    assert_eq!(InsertionResult::OutOfMemory { written: 4095, available: 4095 }, buffer.seq(0, &data));
    assert_eq!(4095, buffer.available());
}

#[test]
fn reordered_buffer_size_rounds_up_exactly() {
    assert_eq!(64, ReorderedBuffer::new(33).unwrap().buffer_size());
    assert_eq!(64, ReorderedBuffer::new(64).unwrap().buffer_size());
    assert_eq!(1, ReorderedBuffer::new(1).unwrap().buffer_size());
}

use netbricks::state::mergeable::{count_update, next_cache_size, MAX_CACHE_SIZE};

#[test]
fn data_path_sends_after_delay_updates() {
    assert_eq!((1, false), count_update(0, 3));
    assert_eq!((2, false), count_update(1, 3));
    assert_eq!((0, true), count_update(2, 3));
    assert_eq!((0, true), count_update(0, 0));
}

#[test]
fn cache_size_resets_or_grows() {
    assert_eq!(1024, next_cache_size(4096, 1024, true));
    assert_eq!(MAX_CACHE_SIZE, next_cache_size(1024, 1024, false));
    assert_eq!(2 * MAX_CACHE_SIZE, next_cache_size(MAX_CACHE_SIZE, 1024, false));
}

#[test]
fn reordered_far_ahead_is_out_of_memory() {
    let mut buffer = ReorderedBuffer::new(64).unwrap();
    buffer.seq(0, &[1]);
    // half the sequence space ahead: beyond the room, nothing is written
    assert_eq!(InsertionResult::OutOfMemory { written: 0, available: 1 }, buffer.add_data(0x8000_0001, &[2, 3]));
    // the stream is now taken as out of order: a write at the tail that
    // does not fit is still reported as inserted
    let data = [7u8; 100];
    assert_eq!(InsertionResult::Inserted { written: 62, available: 63 }, buffer.add_data(1, &data));
}

#[test]
fn reordered_data_ending_at_the_tail_turns_out_of_order() {
    let mut buffer = ReorderedBuffer::new(64).unwrap();
    buffer.seq(0, &[0, 1, 2, 3, 4, 5, 6, 7, 8, 9]);
    assert_eq!(InsertionResult::Inserted { written: 0, available: 10 }, buffer.add_data(5, &[5, 6, 7, 8, 9]));
    let data = [7u8; 60];
    // out of order, a tail write that does not fit reports what it wrote
    assert_eq!(InsertionResult::Inserted { written: 53, available: 63 }, buffer.add_data(10, &data));
    // and the stream is in order again
    let mut out = [0u8; 63];
    assert_eq!(63, buffer.read_data(&mut out));
    assert_eq!(InsertionResult::OutOfMemory { written: 63, available: 63 }, buffer.add_data(63, &[1u8; 70]));
}

#[test]
fn reordered_in_order_wrapped_end_before_tail_is_dropped() {
    let mut buffer = ReorderedBuffer::new(64).unwrap();
    buffer.seq(10, &[1]);
    // starts after the tail but wraps round to end before it
    assert_eq!(
        InsertionResult::Inserted { written: 0, available: 1 },
        buffer.add_data(0xffff_fff0, &[0u8; 20]),
    );
    assert_eq!(1, buffer.available());
}
