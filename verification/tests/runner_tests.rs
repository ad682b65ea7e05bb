//! Dispatch into the bus map and the startup wiring of consumers.

use kinesin::bus::Bus;
use kinesin::bus::VecSink;
use kinesin::registry::Registry;
use kinesin::runner::BusMap;
use kinesin::runner::WireError;
use kinesin::runner::resolve_consumer_fd;
use kinesin::conf::ProducerConf;
use kinesin::service::Service;

fn map_with_bus(fd: i32, bufsize: usize) -> BusMap<VecSink> {
    let mut map: BusMap<VecSink> = BusMap::new();
    let mut bus: Bus<VecSink> = Bus::new(bufsize);
    bus.add_consumer(VecSink::new());
    assert!(map.insert(fd, bus));
    map
}

#[test]
fn file_events_land_in_the_bus_of_their_descriptor() {
    let mut map = map_with_bus(5, 0);
    assert_eq!(map.consume_fd(5, b"hello\n").unwrap(), true);
    // an event for a descriptor without a bus is dropped
    assert_eq!(map.consume_fd(6, b"lost").unwrap(), false);
    let bus = map.take_bus(5).unwrap();
    assert_eq!(bus.consumers()[0].data, b"hello\n".to_vec());
    assert!(map.take_bus(5).is_none());
}

#[test]
fn a_descriptor_gets_only_one_bus() {
    let mut map = map_with_bus(5, 0);
    let second: Bus<VecSink> = Bus::new(0);
    assert!(!map.insert(5, second));
    assert_eq!(map.len(), 1);
    // and a consumer cannot be wired to a descriptor without a bus
    assert!(!map.add_consumer_fd(6, VecSink::new()));
}

#[test]
fn flushing_the_stream_of_a_reaped_service_drains_staged_bytes() {
    let mut map = map_with_bus(5, 64);
    map.consume_fd(5, b"last words").unwrap();
    let svc = Service::new("alpha".to_string(), 100, Some(5), None, true);
    map.flush_service(&svc).unwrap();
    let bus = map.take_bus(5).unwrap();
    assert_eq!(bus.consumers()[0].data, b"last words".to_vec());
}

#[test]
fn final_drain_flushes_every_bus() {
    let mut map: BusMap<VecSink> = BusMap::new();
    let mut first: Bus<VecSink> = Bus::new(32);
    first.add_consumer(VecSink::new());
    let mut second: Bus<VecSink> = Bus::new(32);
    second.add_consumer(VecSink::new());
    assert!(map.insert(3, first));
    assert!(map.insert(4, second));
    map.consume_fd(3, b"one").unwrap();
    map.consume_fd(4, b"two").unwrap();
    map.flush_all().unwrap();
    assert_eq!(map.take_bus(3).unwrap().consumers()[0].data, b"one".to_vec());
    assert_eq!(map.take_bus(4).unwrap().consumers()[0].data, b"two".to_vec());
}

#[test]
fn consumers_wire_to_the_stream_of_the_named_service() {
    let mut reg = Registry::new();
    assert!(reg.insert(Service::new("alpha".to_string(), 100, Some(5), None, true)));
    assert_eq!(resolve_consumer_fd(&reg, &ProducerConf::StdOut("alpha".to_string())), Ok(5));
    assert_eq!(
        resolve_consumer_fd(&reg, &ProducerConf::StdErr("alpha".to_string())),
        Err(WireError::StreamOff),
    );
    assert_eq!(
        resolve_consumer_fd(&reg, &ProducerConf::StdOut("beta".to_string())),
        Err(WireError::NoSuchService),
    );
}

#[test]
fn a_reaped_service_gets_both_of_its_stream_buses_flushed() {
    let mut map: BusMap<VecSink> = BusMap::new();
    let mut out_bus: Bus<VecSink> = Bus::new(32);
    out_bus.add_consumer(VecSink::new());
    let mut err_bus: Bus<VecSink> = Bus::new(32);
    err_bus.add_consumer(VecSink::new());
    let mut other_bus: Bus<VecSink> = Bus::new(32);
    other_bus.add_consumer(VecSink::new());
    assert!(map.insert(5, out_bus));
    assert!(map.insert(7, err_bus));
    assert!(map.insert(9, other_bus));
    map.consume_fd(5, b"out tail").unwrap();
    map.consume_fd(7, b"err tail").unwrap();
    map.consume_fd(9, b"stays staged").unwrap();
    let svc = Service::new("alpha".to_string(), 100, Some(5), Some(7), true);
    map.flush_service(&svc).unwrap();
    assert_eq!(map.take_bus(5).unwrap().consumers()[0].data, b"out tail".to_vec());
    assert_eq!(map.take_bus(7).unwrap().consumers()[0].data, b"err tail".to_vec());
    // a bus of another service is untouched by the reap flush
    assert_eq!(map.take_bus(9).unwrap().consumers()[0].data, b"".to_vec());
}
