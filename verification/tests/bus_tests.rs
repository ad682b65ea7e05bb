//! Behaviour of the fan-out bus against in-memory sinks.

use kinesin::bus::Bus;
use kinesin::bus::Sink;
use kinesin::bus::VecSink;

fn bus_with_sinks(bufsize: usize, sinks: usize) -> Bus<VecSink> {
    let mut bus: Bus<VecSink> = Bus::new(bufsize);
    let mut i: usize = 0;
    while i < sinks {
        bus.add_consumer(VecSink::new());
        i += 1;
    }
    bus
}

#[test]
fn unbuffered_bus_delivers_every_batch_directly() {
    let mut bus = bus_with_sinks(0, 2);
    bus.consume(b"hello").unwrap();
    bus.consume(b" world").unwrap();
    for sink in bus.consumers().iter() {
        assert_eq!(sink.data, b"hello world".to_vec());
        assert_eq!(sink.batches, 2);
    }
}

#[test]
fn consume_then_flush_delivers_concatenation_in_order() {
    let mut bus = bus_with_sinks(4, 2);
    bus.consume(b"ab").unwrap();
    bus.consume(b"cde").unwrap();
    bus.flush().unwrap();
    for sink in bus.consumers().iter() {
        assert_eq!(sink.data, b"abcde".to_vec());
    }
}

#[test]
fn staging_buffer_flushes_each_time_it_fills_exactly() {
    let mut bus = bus_with_sinks(4, 1);
    bus.consume(b"0123456789").unwrap();
    // ten bytes through a four-byte buffer: two full flushes, two bytes stay
    let sink = &bus.consumers()[0];
    assert_eq!(sink.data, b"01234567".to_vec());
    assert_eq!(sink.batches, 2);
    bus.flush().unwrap();
    let sink = &bus.consumers()[0];
    assert_eq!(sink.data, b"0123456789".to_vec());
    assert_eq!(sink.batches, 3);
}

#[test]
fn second_flush_in_a_row_writes_nothing() {
    let mut bus = bus_with_sinks(8, 1);
    bus.consume(b"abc").unwrap();
    bus.flush().unwrap();
    let batches_after_first: usize = bus.consumers()[0].batches;
    bus.flush().unwrap();
    assert_eq!(bus.consumers()[0].batches, batches_after_first);
    assert_eq!(bus.consumers()[0].data, b"abc".to_vec());
}

#[test]
fn consume_of_empty_batch_changes_nothing() {
    let mut bus = bus_with_sinks(4, 1);
    bus.consume(b"xy").unwrap();
    bus.consume(b"").unwrap();
    bus.flush().unwrap();
    assert_eq!(bus.consumers()[0].data, b"xy".to_vec());
}

fn pattern(len: usize) -> Vec<u8> {
    let mut v: Vec<u8> = Vec::new();
    let mut i: usize = 0;
    while i < len {
        v.push((i % 251) as u8);
        i += 1;
    }
    v
}

fn round_trip(capacity: usize, len: usize) {
    let mut bus = bus_with_sinks(capacity, 1);
    let data = pattern(len);
    bus.consume(&data).unwrap();
    bus.flush().unwrap();
    assert_eq!(bus.consumers()[0].data, data);
}

#[test]
fn round_trip_of_every_boundary_length() {
    let capacity: usize = 64;
    round_trip(capacity, 0);
    round_trip(capacity, 1);
    round_trip(capacity, capacity - 1);
    round_trip(capacity, capacity);
    round_trip(capacity, capacity + 1);
    round_trip(capacity, 10 * capacity);
    round_trip(capacity, 1048576);
}

#[test]
fn round_trip_split_into_reads() {
    // the same bytes arriving as many small reads land identically
    let mut bus = bus_with_sinks(64, 1);
    let data = pattern(10000);
    let mut at: usize = 0;
    while at < data.len() {
        let end: usize = if at + 128 < data.len() { at + 128 } else { data.len() };
        bus.consume(&data[at..end]).unwrap();
        at = end;
    }
    bus.flush().unwrap();
    assert_eq!(bus.consumers()[0].data, data);
}

#[test]
fn counting_ten_thousand_bytes_through_small_buffers() {
    // 10,000 bytes in 128-byte reads through a 64-byte staging buffer: the
    // sink counts every byte, none lost at buffer boundaries
    let mut bus = bus_with_sinks(64, 1);
    let data: Vec<u8> = vec![b'A'; 10000];
    let mut at: usize = 0;
    while at < data.len() {
        let end: usize = if at + 128 < data.len() { at + 128 } else { data.len() };
        bus.consume(&data[at..end]).unwrap();
        at = end;
    }
    bus.flush().unwrap();
    let sink = &bus.consumers()[0];
    assert_eq!(sink.data.len(), 10000);
    assert!(sink.data.iter().all(|b| *b == b'A'));
}

#[test]
fn two_streams_share_no_bytes_and_keep_their_own_order() {
    // two buses fed alternately: each sink sees exactly its own stream, in
    // order, however the chunks interleave
    let mut first = bus_with_sinks(16, 1);
    let mut second = bus_with_sinks(16, 1);
    let mut expect_first: Vec<u8> = Vec::new();
    let mut expect_second: Vec<u8> = Vec::new();
    let mut i: usize = 1;
    while i <= 100 {
        let line = format!("{}\n", i).into_bytes();
        if i % 2 == 0 {
            first.consume(&line).unwrap();
            expect_first.extend_from_slice(&line);
        } else {
            second.consume(&line).unwrap();
            expect_second.extend_from_slice(&line);
        }
        i += 1;
    }
    first.flush().unwrap();
    second.flush().unwrap();
    assert_eq!(first.consumers()[0].data, expect_first);
    assert_eq!(second.consumers()[0].data, expect_second);
}
