//! The watcher against real pipes and a real signal descriptor.

use kinesin::bus::Bus;
use kinesin::bus::VecSink;
use kinesin::runner::BusMap;
use kinesin::watcher::Event;
use kinesin::watcher::WatchError;
use kinesin::watcher::Watcher;

fn make_nonblocking_pipe() -> (i32, i32) {
    let (r, w) = nix::unistd::pipe().unwrap();
    nix::fcntl::fcntl(r, nix::fcntl::FcntlArg::F_SETFL(nix::fcntl::OFlag::O_NONBLOCK)).unwrap();
    (r, w)
}

fn write_all(fd: i32, mut data: &[u8]) {
    while !data.is_empty() {
        let n = nix::unistd::write(fd, data).unwrap();
        data = &data[n..];
    }
}

fn pattern(len: usize) -> Vec<u8> {
    let mut v: Vec<u8> = Vec::new();
    let mut i: usize = 0;
    while i < len {
        v.push((i % 251) as u8);
        i += 1;
    }
    v
}

#[test]
fn bytes_written_to_a_pipe_come_back_whole_and_in_order() {
    let (rfd, wfd) = make_nonblocking_pipe();
    let mut watcher = Watcher::new().unwrap();
    assert_eq!(watcher.watch_fd(rfd, 16).unwrap(), true);
    // watching the same descriptor twice is a no-op
    assert_eq!(watcher.watch_fd(rfd, 16).unwrap(), false);

    let sent = pattern(1000);
    write_all(wfd, &sent);
    nix::unistd::close(wfd).unwrap();

    let mut collected: Vec<u8> = Vec::new();
    let mut rounds: usize = 0;
    loop {
        assert!(rounds < 10000, "watcher never drained the pipe");
        rounds += 1;
        match watcher.poll_no_block().unwrap() {
            Some(Event::File(fd, bytes)) => {
                assert_eq!(fd, rfd);
                assert!(!bytes.is_empty());
                assert!(bytes.len() <= 16);
                collected.extend_from_slice(&bytes);
            }
            Some(Event::Signal(_)) => panic!("no signal was watched"),
            None => {
                if collected.len() == sent.len() {
                    break;
                }
            }
        }
    }
    assert_eq!(collected, sent);
    // end of stream removed the descriptor: nothing more ever comes
    assert!(watcher.poll_no_block().unwrap().is_none());
}

#[test]
fn a_blocked_signal_arrives_as_a_notification() {
    let mut mask = nix::sys::signal::SigSet::empty();
    mask.add(nix::sys::signal::Signal::SIGCHLD);
    mask.thread_block().unwrap();

    let mut watcher = Watcher::new().unwrap();
    watcher.watch_signal(nix::sys::signal::Signal::SIGCHLD as i32).unwrap();
    // adding the same signal again is a no-op
    watcher.watch_signal(nix::sys::signal::Signal::SIGCHLD as i32).unwrap();

    nix::sys::signal::raise(nix::sys::signal::Signal::SIGCHLD).unwrap();

    let mut rounds: usize = 0;
    loop {
        assert!(rounds < 1000, "the raised signal never surfaced");
        rounds += 1;
        match watcher.poll_no_block().unwrap() {
            Some(Event::Signal(signo)) => {
                assert_eq!(signo, nix::sys::signal::Signal::SIGCHLD as i32);
                break;
            }
            Some(Event::File(_, _)) => panic!("no descriptor was watched"),
            None => {}
        }
    }
}

#[test]
fn ten_thousand_bytes_flow_through_watcher_and_bus_uncounted_bytes_zero() {
    // a producer's bytes drain through 128-byte reads into a 64-byte staging
    // bus; after the final flush the sink holds every byte
    let (rfd, wfd) = make_nonblocking_pipe();
    let mut watcher = Watcher::new().unwrap();
    assert!(watcher.watch_fd(rfd, 128).unwrap());

    let mut map: BusMap<VecSink> = BusMap::new();
    let mut bus: Bus<VecSink> = Bus::new(64);
    bus.add_consumer(VecSink::new());
    assert!(map.insert(rfd, bus));

    let sent: Vec<u8> = vec![b'A'; 10000];
    // a pipe holds 64 KiB, so the whole payload fits before any draining
    write_all(wfd, &sent);
    nix::unistd::close(wfd).unwrap();

    let mut delivered: usize = 0;
    let mut rounds: usize = 0;
    loop {
        assert!(rounds < 10000, "watcher never drained the pipe");
        rounds += 1;
        match watcher.poll_no_block().unwrap() {
            Some(Event::File(fd, bytes)) => {
                delivered += bytes.len();
                assert!(map.consume_fd(fd, &bytes).unwrap());
            }
            Some(Event::Signal(_)) => panic!("no signal was watched"),
            None => {
                if delivered == sent.len() {
                    break;
                }
            }
        }
    }
    map.flush_all().unwrap();
    let bus = map.take_bus(rfd).unwrap();
    let sink = &bus.consumers()[0];
    assert_eq!(sink.data.len(), 10000);
    assert!(sink.data.iter().all(|b| *b == b'A'));
}

#[test]
fn watching_a_dead_descriptor_surfaces_the_kernel_error() {
    let mut watcher = Watcher::new().unwrap();
    // descriptor 999 is not open in this process: EBADF
    let r = watcher.watch_fd(999, 16);
    assert_eq!(r, Err(WatchError::Sys(9)));
}

#[test]
fn teardown_closes_every_watched_descriptor() {
    let (rfd, wfd) = make_nonblocking_pipe();
    let (rfd2, wfd2) = make_nonblocking_pipe();
    let mut watcher = Watcher::new().unwrap();
    assert!(watcher.watch_fd(rfd, 8).unwrap());
    assert!(watcher.watch_fd(rfd2, 8).unwrap());
    assert_eq!(watcher.close_all(), 2);
    assert_eq!(watcher.close_all(), 0);
    // the descriptors were really closed: reading them now is EBADF
    assert_eq!(nix::unistd::read(rfd, &mut [0u8; 4]), Err(nix::errno::Errno::EBADF));
    assert_eq!(nix::unistd::read(rfd2, &mut [0u8; 4]), Err(nix::errno::Errno::EBADF));
    nix::unistd::close(wfd).unwrap();
    nix::unistd::close(wfd2).unwrap();
}
