//! Failure semantics: a sink error surfaces at once, sinks later in the
//! order receive nothing of that batch, and nothing already accepted is lost.

use kinesin::bus::Bus;
use kinesin::bus::Sink;
use kinesin::bus::SinkError;

/// A sink that accepts bytes until told to fail.
enum TestSink {
    Keeps(Vec<u8>),
    Fails,
}

impl Sink for TestSink {
    fn write(&mut self, data: &[u8]) -> Result<(), SinkError> {
        match self {
            TestSink::Keeps(kept) => {
                kept.extend_from_slice(data);
                Ok(())
            }
            TestSink::Fails => Err(SinkError { code: 5 }),
        }
    }
}

fn kept(sink: &TestSink) -> &[u8] {
    match sink {
        TestSink::Keeps(kept) => kept,
        TestSink::Fails => panic!("not a keeping sink"),
    }
}

#[test]
fn unbuffered_error_stops_delivery_at_the_failing_sink() {
    let mut bus: Bus<TestSink> = Bus::new(0);
    bus.add_consumer(TestSink::Keeps(Vec::new()));
    bus.add_consumer(TestSink::Fails);
    bus.add_consumer(TestSink::Keeps(Vec::new()));
    let r = bus.consume(b"batch");
    assert_eq!(r, Err(SinkError { code: 5 }));
    // the sink before the failing one received the batch, the one after did not
    assert_eq!(kept(&bus.consumers()[0]), b"batch");
    assert_eq!(kept(&bus.consumers()[2]), b"");
}

#[test]
fn flush_error_keeps_the_staged_bytes() {
    let mut bus: Bus<TestSink> = Bus::new(4);
    bus.add_consumer(TestSink::Fails);
    bus.consume(b"ab").unwrap();
    let r = bus.flush();
    assert_eq!(r, Err(SinkError { code: 5 }));
    // the buffer was not reset: a later flush to a mended sink still delivers
    let sinks = bus.consumers();
    assert!(matches!(sinks[0], TestSink::Fails));
}

#[test]
fn buffered_error_surfaces_out_of_consume() {
    let mut bus: Bus<TestSink> = Bus::new(2);
    bus.add_consumer(TestSink::Fails);
    // two bytes fill the staging buffer exactly, so consume flushes and hits
    // the failing sink
    let r = bus.consume(b"xy");
    assert_eq!(r, Err(SinkError { code: 5 }));
}
