//! Kernel-event watcher: registers interest in signals and stream
//! descriptors and produces a stream of [`Event`]s.
//!
//! The backend is reactive, readiness-based: an epoll instance watches a
//! signal descriptor and every registered stream descriptor for readability. On readiness of a stream
//! descriptor the watcher performs one non-blocking read into the
//! descriptor's own [`BufFd`] and yields the bytes; a read of zero bytes is
//! end of stream, upon which the descriptor is closed and dropped. On
//! readiness of the signal descriptor one signal record is decoded. Callers
//! must block the watched signals process-wide first, so they arrive here as
//! notifications and never as interrupts.

use vstd::prelude::*;

use nix::sys::epoll::EpollCreateFlags;
use nix::sys::epoll::EpollEvent;
use nix::sys::epoll::EpollFlags;
use nix::sys::epoll::EpollOp;
use nix::sys::epoll::epoll_create1;
use nix::sys::epoll::epoll_ctl;
use nix::sys::epoll::epoll_wait;
use nix::sys::signal::SigSet;
use nix::sys::signal::Signal;
use nix::sys::signalfd::SfdFlags;
use nix::sys::signalfd::signalfd;

use crate::buffd::BufFd;

verus! {

/// Size of one record the kernel writes for a signal file descriptor.
pub const SIGINFO_RECORD_SIZE: usize = 128;

/// One kernel event: a signal arrival, or bytes read from a watched
/// descriptor. The bytes are the watcher's copy; they stay valid past the
/// next poll.
pub enum Event {
    /// One signal arrived, by signal number.
    Signal(i32),
    /// Bytes most recently read from this descriptor, non-empty.
    File(i32, Vec<u8>),
}

/// Why the watcher could not produce an event.
#[derive(Debug, Clone, Copy, PartialEq, Eq, Structural)]
pub enum WatchError {
    /// A kernel call failed with this error number.
    Sys(i32),
    /// The kernel reported an event for a descriptor the watcher does not
    /// hold: an internal inconsistency, fatal to the supervisor.
    UnknownFd(i32),
    /// The caller asked to watch the watcher's own signal descriptor.
    Reserved(i32),
}

/// Whether a poll outcome is the internal-inconsistency error: an event for
/// a descriptor the watcher does not hold.
pub open spec fn is_unknown_fd_error(r: Result<Option<Event>, WatchError>) -> bool {
    match r {
        Err(WatchError::UnknownFd(_)) => true,
        _ => false,
    }
}

/// Relies on nix::sys::epoll::epoll_create1: a fresh epoll instance
/// descriptor (non-negative), or the error number.
#[verifier::external_body]
fn sys_epoll_create() -> (r: Result<i32, i32>)
    ensures
        r matches Ok(fd) ==> fd >= 0,
{
    match epoll_create1(EpollCreateFlags::EPOLL_CLOEXEC) {
        Ok(fd) => Ok(fd),
        Err(e) => Err(e as i32),
    }
}

/// Relies on nix::sys::epoll::epoll_ctl: registers read-readiness interest in
/// `fd` with the epoll instance `epfd`, carrying `fd` itself as the event
/// payload.
#[verifier::external_body]
fn sys_epoll_add(epfd: i32, fd: i32) -> (r: Result<(), i32>)
    requires
        fd >= 0,
{
    let mut ev = EpollEvent::new(EpollFlags::EPOLLIN, fd as u64);
    match epoll_ctl(epfd, EpollOp::EpollCtlAdd, fd, &mut ev) {
        Ok(()) => Ok(()),
        Err(e) => Err(e as i32),
    }
}

/// Relies on nix::sys::epoll::epoll_wait with a one-slot event buffer: waits
/// up to `timeout_ms` milliseconds (-1 waits indefinitely, 0 returns at
/// once) and hands back the payload of one ready event, or `None` when the
/// wait timed out with nothing ready. Which event is ready depends on the
/// kernel, so nothing is promised of the payload.
#[verifier::external_body]
fn sys_epoll_wait_one(epfd: i32, timeout_ms: isize) -> (r: Result<Option<u64>, i32>) {
    let mut events = [EpollEvent::empty(); 1];
    match epoll_wait(epfd, &mut events, timeout_ms) {
        Ok(0) => Ok(None),
        Ok(_) => Ok(Some(events[0].data())),
        Err(e) => Err(e as i32),
    }
}

/// Relies on nix::sys::signalfd::signalfd: creates (when `fd` is -1) or
/// re-masks a non-blocking signal file descriptor that delivers the signals
/// of `mask` as readable records. The caller keeps those signals blocked
/// process-wide so they are consumed here rather than delivered as
/// interrupts. Returns the (non-negative) signal descriptor.
#[verifier::external_body]
fn sys_signalfd(fd: i32, mask: &Vec<i32>) -> (r: Result<i32, i32>)
    requires
        forall|i: int| 0 <= i < mask@.len() ==> 1 <= #[trigger] mask@[i] <= 31,
    ensures
        r matches Ok(sfd) ==> sfd >= 0,
{
    let mut sigset = SigSet::empty();
    for s in mask.iter() {
        sigset.add(Signal::try_from(*s).unwrap());
    }
    match signalfd(fd, &sigset, SfdFlags::SFD_NONBLOCK) {
        Ok(sfd) => Ok(sfd),
        Err(e) => Err(e as i32),
    }
}

/// Relies on nix::unistd::close: gives the descriptor back to the kernel.
#[verifier::external_body]
fn sys_close(fd: i32) -> (r: Result<(), i32>) {
    match nix::unistd::close(fd) {
        Ok(()) => Ok(()),
        Err(e) => Err(e as i32),
    }
}

/// The signal number sits in the first four bytes of a signal record, least
/// significant byte first (the byte order of the supported targets).
pub open spec fn signo_of_record(b: Seq<u8>) -> int {
    b[0] + b[1] * 0x100 + b[2] * 0x10000 + b[3] * 0x1000000
}

/// Kernel-event watcher over an epoll instance: the signal descriptor, the
/// set of watched signals, and one owned [`BufFd`] per watched stream
/// descriptor.
pub struct Watcher {
    epfd: i32,
    signal_fd: i32,
    signals: Vec<i32>,
    signal_buf: BufFd,
    fds: Vec<BufFd>,
}

impl Watcher {
    /// The signal numbers delivered as [`Event::Signal`].
    pub closed spec fn spec_signals(&self) -> Seq<i32> {
        self.signals@
    }

    /// Whether `fd` is currently watched for readable bytes.
    pub closed spec fn is_watched(&self, fd: i32) -> bool {
        exists|i: int| 0 <= i < self.fds@.len() && (#[trigger] self.fds@[i]).spec_fd() == fd
    }

    /// The watcher's own signal descriptor; asking to watch it is refused.
    pub closed spec fn spec_signal_fd(&self) -> i32 {
        self.signal_fd
    }

    /// The store index of a watched descriptor (arbitrary when unwatched).
    pub closed spec fn watched_index(&self, fd: i32) -> int {
        choose|i: int| 0 <= i < self.fds@.len() && (#[trigger] self.fds@[i]).spec_fd() == fd
    }

    /// The valid bytes of a watched descriptor's read buffer: what the most
    /// recent read of it drained.
    pub closed spec fn watched_data(&self, fd: i32) -> Seq<u8> {
        self.fds@[self.watched_index(fd)].spec_data()
    }

    /// The read capacity a watched descriptor was registered with.
    pub closed spec fn watched_capacity(&self, fd: i32) -> nat {
        self.fds@[self.watched_index(fd)].spec_capacity()
    }

    /// The valid bytes of the most recent signal-descriptor read.
    pub closed spec fn last_signal_record(&self) -> Seq<u8> {
        self.signal_buf.spec_data()
    }

    /// Invariant: watched descriptors are valid, pairwise distinct and
    /// distinct from the signal descriptor; every buffer is well formed; the
    /// signal buffer is large enough for one signal record; watched signal
    /// numbers are valid.
    pub closed spec fn wf(&self) -> bool {
        &&& self.signal_fd >= 0
        &&& self.signal_buf.wf()
        &&& self.signal_buf.spec_capacity() == SIGINFO_RECORD_SIZE
        &&& forall|i: int| 0 <= i < self.fds@.len() ==> (#[trigger] self.fds@[i]).wf()
        &&& forall|i: int| 0 <= i < self.fds@.len()
            ==> (#[trigger] self.fds@[i]).spec_fd() >= 0
                && self.fds@[i].spec_fd() != self.signal_fd
        &&& forall|i: int, j: int| 0 <= i < j < self.fds@.len()
            ==> (#[trigger] self.fds@[i]).spec_fd() != (#[trigger] self.fds@[j]).spec_fd()
        &&& forall|i: int| 0 <= i < self.signals@.len() ==> 1 <= #[trigger] self.signals@[i] <= 31
    }

    /// A watcher with no watched signals and no watched descriptors: a fresh
    /// epoll instance and a signal descriptor with an empty mask, registered
    /// with it.
    pub fn new() -> (r: Result<Watcher, WatchError>)
        ensures
            r matches Ok(w) ==> w.wf()
                && w.spec_signals().len() == 0
                && (forall|fd: i32| !w.is_watched(fd)),
    {
        let epfd = match sys_epoll_create() {
            Ok(fd) => fd,
            Err(e) => {
                return Err(WatchError::Sys(e));
            }
        };
        let signals: Vec<i32> = Vec::new();
        let signal_fd = match sys_signalfd(-1, &signals) {
            Ok(fd) => fd,
            Err(e) => {
                return Err(WatchError::Sys(e));
            }
        };
        match sys_epoll_add(epfd, signal_fd) {
            Ok(()) => {}
            Err(e) => {
                return Err(WatchError::Sys(e));
            }
        }
        let w = Watcher {
            epfd,
            signal_fd,
            signals,
            signal_buf: BufFd::new(signal_fd, SIGINFO_RECORD_SIZE),
            fds: Vec::new(),
        };
        Ok(w)
    }

    /// Add `signo` to the set of signals delivered as events. The caller has
    /// blocked `signo` process-wide already. Adding a signal twice is a
    /// no-op.
    pub fn watch_signal(&mut self, signo: i32) -> (r: Result<(), WatchError>)
        requires
            old(self).wf(),
            1 <= signo <= 31,
        ensures
            final(self).wf(),
            old(self).spec_signals().contains(signo)
                ==> r is Ok && final(self).spec_signals() == old(self).spec_signals(),
            r is Ok && !old(self).spec_signals().contains(signo)
                ==> final(self).spec_signals() == old(self).spec_signals().push(signo),
            r is Ok ==> final(self).spec_signals().contains(signo),
            r is Err ==> final(self).spec_signals() == old(self).spec_signals(),
            final(self).spec_signal_fd() == old(self).spec_signal_fd(),
            forall|fd: i32| final(self).is_watched(fd) == old(self).is_watched(fd),
    {
        let n = self.signals.len();
        let mut idx: usize = 0;
        while idx < n
            invariant
                old(self).wf(),
                self == old(self),
                n == self.signals@.len(),
                0 <= idx <= n,
                forall|i: int| 0 <= i < idx ==> #[trigger] self.signals@[i] != signo,
            decreases n - idx,
        {
            if self.signals[idx] == signo {
                proof {
                    assert(self.spec_signals()[idx as int] == signo);
                }
                return Ok(());
            }
            idx = idx + 1;
        }
        proof {
            assert(!old(self).spec_signals().contains(signo));
        }
        self.signals.push(signo);
        proof {
            lemma_same_store_same_watched(*old(self), *self);
        }
        match sys_signalfd(self.signal_fd, &self.signals) {
            Ok(_) => {
                proof {
                    assert(self.spec_signals()[self.spec_signals().len() - 1] == signo);
                }
                Ok(())
            }
            Err(e) => {
                // the kernel was never told about the new signal: take it
                // back out, so the state claims only what the mask holds
                self.signals.pop();
                proof {
                    assert(self.signals@ =~= old(self).signals@);
                    lemma_same_store_same_watched(*old(self), *self);
                }
                Err(WatchError::Sys(e))
            }
        }
    }

    /// Take ownership of `fd` (already non-blocking) and a read buffer of
    /// `capacity` bytes, and start delivering its readable bytes as events.
    /// Returns false and changes nothing when `fd` is already watched;
    /// refuses the watcher's own signal descriptor.
    pub fn watch_fd(&mut self, fd: i32, capacity: usize) -> (r: Result<bool, WatchError>)
        requires
            old(self).wf(),
            fd >= 0,
        ensures
            final(self).wf(),
            final(self).spec_signals() == old(self).spec_signals(),
            final(self).spec_signal_fd() == old(self).spec_signal_fd(),
            (r == Err::<bool, WatchError>(WatchError::Reserved(fd)))
                <==> fd == old(self).spec_signal_fd(),
            old(self).is_watched(fd) ==> r matches Ok(false),
            r matches Ok(true) ==> (forall|g: i32| final(self).is_watched(g)
                == (old(self).is_watched(g) || g == fd))
                && final(self).watched_capacity(fd) == capacity
                && final(self).watched_data(fd) == Seq::<u8>::empty(),
            r matches Ok(false) ==> old(self).is_watched(fd)
                && (forall|g: i32| final(self).is_watched(g) == old(self).is_watched(g)),
            r is Err ==> forall|g: i32| final(self).is_watched(g) == old(self).is_watched(g),
    {
        if fd == self.signal_fd {
            proof {
                assert(!old(self).is_watched(fd)) by {
                    if old(self).is_watched(fd) {
                        let i = choose|i: int| 0 <= i < old(self).fds@.len()
                            && (#[trigger] old(self).fds@[i]).spec_fd() == fd;
                        assert(old(self).fds@[i].spec_fd() != old(self).signal_fd);
                    }
                }
            }
            return Err(WatchError::Reserved(fd));
        }
        let n = self.fds.len();
        let mut idx: usize = 0;
        while idx < n
            invariant
                old(self).wf(),
                self == old(self),
                n == self.fds@.len(),
                0 <= idx <= n,
                forall|i: int| 0 <= i < idx ==> (#[trigger] self.fds@[i]).spec_fd() != fd,
            decreases n - idx,
        {
            if self.fds[idx].as_raw_fd() == fd {
                proof {
                    assert(self.fds@[idx as int].spec_fd() == fd);
                }
                return Ok(false);
            }
            idx = idx + 1;
        }
        match sys_epoll_add(self.epfd, fd) {
            Ok(()) => {}
            Err(e) => {
                return Err(WatchError::Sys(e));
            }
        }
        let ghost pre = *self;
        self.fds.push(BufFd::new(fd, capacity));
        proof {
            assert(self.fds@[self.fds@.len() - 1].spec_fd() == fd);
            lemma_watched_index_at(*self, self.fds@.len() - 1);
            assert(self.watched_capacity(fd) == capacity);
            assert(self.watched_data(fd) =~= Seq::<u8>::empty());
            assert forall|g: i32| self.is_watched(g)
                == (pre.is_watched(g) || g == fd) by {
                if self.is_watched(g) {
                    let i = choose|i: int| 0 <= i < self.fds@.len()
                        && (#[trigger] self.fds@[i]).spec_fd() == g;
                    if i < pre.fds@.len() {
                        assert(pre.fds@[i].spec_fd() == g);
                    }
                }
                if pre.is_watched(g) {
                    let i = choose|i: int| 0 <= i < pre.fds@.len()
                        && (#[trigger] pre.fds@[i]).spec_fd() == g;
                    assert(self.fds@[i].spec_fd() == g);
                }
                if g == fd {
                    assert(self.is_watched(g));
                }
            }
        }
        Ok(true)
    }

    /// Close and drop every watched stream descriptor: the final step of the
    /// run loop's teardown, after the buses are flushed. The signal
    /// descriptor stays, so polling remains possible.
    pub fn close_all(&mut self) -> (r: usize)
        requires
            old(self).wf(),
        ensures
            final(self).wf(),
            final(self).spec_signals() == old(self).spec_signals(),
            forall|fd: i32| !final(self).is_watched(fd),
            r == old(self).fd_count(),
    {
        let total = self.fds.len();
        let mut closed: usize = 0;
        while closed < total
            invariant
                old(self).wf(),
                total == old(self).fd_count(),
                self.epfd == old(self).epfd,
                self.signal_fd == old(self).signal_fd,
                self.signals@ == old(self).signals@,
                self.signal_buf == old(self).signal_buf,
                forall|i: int| 0 <= i < self.fds@.len() ==> (#[trigger] self.fds@[i]).wf(),
                forall|i: int| 0 <= i < self.fds@.len()
                    ==> (#[trigger] self.fds@[i]).spec_fd() >= 0
                        && self.fds@[i].spec_fd() != self.signal_fd,
                forall|i: int, j: int| 0 <= i < j < self.fds@.len()
                    ==> (#[trigger] self.fds@[i]).spec_fd()
                        != (#[trigger] self.fds@[j]).spec_fd(),
                closed + self.fds@.len() == total,
            decreases total - closed,
        {
            match self.fds.pop() {
                Some(buf) => {
                    let _ = sys_close(buf.as_raw_fd());
                }
                None => {}
            }
            closed = closed + 1;
        }
        proof {
            assert(self.fds@.len() == 0);
        }
        closed
    }

    /// How many stream descriptors are watched.
    pub closed spec fn fd_count(&self) -> nat {
        self.fds@.len()
    }

    /// Wait indefinitely for the next event. `None` means the backend
    /// legitimately reported nothing: a spurious signal wakeup, or end of a
    /// stream (whose descriptor was closed and dropped).
    pub fn poll_block(&mut self) -> (r: Result<Option<Event>, WatchError>)
        requires
            old(self).wf(),
        ensures
            final(self).wf(),
            final(self).spec_signals() == old(self).spec_signals(),
            final(self).spec_signal_fd() == old(self).spec_signal_fd(),
            forall|g: i32| final(self).is_watched(g) ==> old(self).is_watched(g),
            !(r == Ok::<Option<Event>, WatchError>(None))
                ==> final(self).fd_count() == old(self).fd_count(),
            r == Ok::<Option<Event>, WatchError>(None)
                ==> final(self).fd_count() >= old(self).fd_count() - 1,
            r matches Ok(Some(e)) ==> event_sound(e, *final(self)),
    {
        self.poll_internal(-1)
    }

    /// Return at once: the next pending event, or `None` when nothing is
    /// pending.
    pub fn poll_no_block(&mut self) -> (r: Result<Option<Event>, WatchError>)
        requires
            old(self).wf(),
        ensures
            final(self).wf(),
            final(self).spec_signals() == old(self).spec_signals(),
            final(self).spec_signal_fd() == old(self).spec_signal_fd(),
            forall|g: i32| final(self).is_watched(g) ==> old(self).is_watched(g),
            !(r == Ok::<Option<Event>, WatchError>(None))
                ==> final(self).fd_count() == old(self).fd_count(),
            r == Ok::<Option<Event>, WatchError>(None)
                ==> final(self).fd_count() >= old(self).fd_count() - 1,
            r matches Ok(Some(e)) ==> event_sound(e, *final(self)),
    {
        self.poll_internal(0)
    }

    /// One turn of the event pump: wait for one readiness event and turn it
    /// into an [`Event`]. Only an end-of-stream turn (`Ok(None)` from the
    /// stream path) shrinks the store, and then by exactly one descriptor.
    fn poll_internal(&mut self, timeout_ms: isize) -> (r: Result<Option<Event>, WatchError>)
        requires
            old(self).wf(),
        ensures
            final(self).wf(),
            final(self).spec_signals() == old(self).spec_signals(),
            final(self).spec_signal_fd() == old(self).spec_signal_fd(),
            forall|g: i32| final(self).is_watched(g) ==> old(self).is_watched(g),
            !(r == Ok::<Option<Event>, WatchError>(None))
                ==> final(self).fd_count() == old(self).fd_count(),
            r == Ok::<Option<Event>, WatchError>(None)
                ==> final(self).fd_count() >= old(self).fd_count() - 1,
            r matches Ok(Some(e)) ==> event_sound(e, *final(self)),
    {
        let data = match sys_epoll_wait_one(self.epfd, timeout_ms) {
            Ok(Some(d)) => d,
            Ok(None) => {
                return Ok(None);
            }
            Err(e) => {
                return Err(WatchError::Sys(e));
            }
        };
        if data == self.signal_fd as u64 {
            self.read_signal_record()
        } else {
            self.read_watched_fd(data)
        }
    }

    /// Drain one record from the signal descriptor and decode the signal
    /// number from it: a yielded signal event carries exactly
    /// [`signo_of_record`] of the record just read. A short or empty read is
    /// a spurious wakeup: `None`, with nothing changed.
    fn read_signal_record(&mut self) -> (r: Result<Option<Event>, WatchError>)
        requires
            old(self).wf(),
        ensures
            final(self).wf(),
            final(self).spec_signals() == old(self).spec_signals(),
            final(self).spec_signal_fd() == old(self).spec_signal_fd(),
            final(self).fd_count() == old(self).fd_count(),
            forall|g: i32| final(self).is_watched(g) == old(self).is_watched(g),
            r matches Ok(Some(e)) ==> e is Signal && event_sound(e, *final(self)),
    {
        let n = match self.signal_buf.read() {
            Ok(n) => n,
            Err(e) => {
                proof {
                    lemma_same_store_same_watched(*old(self), *self);
                }
                return Err(WatchError::Sys(e));
            }
        };
        proof {
            lemma_same_store_same_watched(*old(self), *self);
        }
        if n < 4 {
            return Ok(None);
        }
        let rec = self.signal_buf.data();
        let b0 = rec[0] as u32;
        let b1 = rec[1] as u32;
        let b2 = rec[2] as u32;
        let b3 = rec[3] as u32;
        let signo: u32 = b0 + b1 * 0x100 + b2 * 0x10000 + b3 * 0x1000000;
        if signo <= 0x7fffffff {
            proof {
                assert(signo == signo_of_record(self.signal_buf.spec_data()));
            }
            Ok(Some(Event::Signal(signo as i32)))
        } else {
            Ok(None)
        }
    }

    /// Readiness of a watched descriptor: read once into its buffer and yield
    /// the bytes. A read of zero bytes is end of stream: the descriptor is
    /// closed and dropped, and the turn yields `None`. An event whose payload
    /// names no watched descriptor is the internal inconsistency
    /// [`WatchError::UnknownFd`], and only such an event produces it.
    fn read_watched_fd(&mut self, data: u64) -> (r: Result<Option<Event>, WatchError>)
        requires
            old(self).wf(),
        ensures
            final(self).wf(),
            final(self).spec_signals() == old(self).spec_signals(),
            final(self).spec_signal_fd() == old(self).spec_signal_fd(),
            forall|g: i32| final(self).is_watched(g) ==> old(self).is_watched(g),
            is_unknown_fd_error(r) <==> !payload_watched(*old(self), data),
            is_unknown_fd_error(r)
                ==> forall|g: i32| final(self).is_watched(g) == old(self).is_watched(g),
            !(r == Ok::<Option<Event>, WatchError>(None))
                ==> final(self).fd_count() == old(self).fd_count(),
            r == Ok::<Option<Event>, WatchError>(None)
                ==> final(self).fd_count() + 1 == old(self).fd_count(),
            r matches Ok(Some(e)) ==> e is File && event_sound(e, *final(self)),
    {
        let n = self.fds.len();
        let mut idx: usize = 0;
        while idx < n
            invariant
                old(self).wf(),
                self == old(self),
                n == self.fds@.len(),
                0 <= idx <= n,
                forall|i: int| 0 <= i < idx
                    ==> (#[trigger] self.fds@[i]).spec_fd() as u64 != data,
            decreases n - idx,
        {
            if self.fds[idx].as_raw_fd() as u64 == data {
                proof {
                    lemma_watched_index_at(*self, idx as int);
                    assert(payload_watched(*self, data)) by {
                        let fd = self.fds@[idx as int].spec_fd();
                        assert(self.is_watched(fd) && fd as u64 == data);
                    }
                }
                return self.read_found_fd(idx);
            }
            idx = idx + 1;
        }
        proof {
            assert(!payload_watched(*old(self), data)) by {
                if payload_watched(*old(self), data) {
                    let fd = choose|fd: i32| #[trigger] old(self).is_watched(fd)
                        && fd as u64 == data;
                    let i = choose|i: int| 0 <= i < old(self).fds@.len()
                        && (#[trigger] old(self).fds@[i]).spec_fd() == fd;
                    assert(self.fds@[i].spec_fd() as u64 != data);
                }
            }
        }
        if data <= 0x7fffffff {
            Err(WatchError::UnknownFd(data as i32))
        } else {
            Err(WatchError::UnknownFd(-1))
        }
    }

    /// Read the buffer at a known store index. A positive read yields a file
    /// event carrying that slot's descriptor and exactly the bytes just
    /// read; a read of zero bytes is end of stream, and exactly that
    /// descriptor is closed and dropped.
    fn read_found_fd(&mut self, idx: usize) -> (r: Result<Option<Event>, WatchError>)
        requires
            old(self).wf(),
            idx < old(self).fds@.len(),
        ensures
            final(self).wf(),
            final(self).spec_signals() == old(self).spec_signals(),
            final(self).spec_signal_fd() == old(self).spec_signal_fd(),
            forall|g: i32| final(self).is_watched(g) ==> old(self).is_watched(g),
            !is_unknown_fd_error(r),
            !(r == Ok::<Option<Event>, WatchError>(None))
                ==> final(self).fd_count() == old(self).fd_count(),
            r == Ok::<Option<Event>, WatchError>(None)
                ==> final(self).fd_count() + 1 == old(self).fd_count()
                    && !final(self).is_watched(old(self).fds@[idx as int].spec_fd()),
            r matches Ok(Some(e)) ==> e matches Event::File(fd, bytes)
                && fd == old(self).fds@[idx as int].spec_fd()
                && event_sound(e, *final(self)),
    {
        let buf = &mut self.fds[idx];
        let n = match buf.read() {
            Ok(n) => n,
            Err(e) => {
                proof {
                    lemma_store_update_keeps_wf(*old(self), *self, idx as int);
                }
                return Err(WatchError::Sys(e));
            }
        };
        proof {
            lemma_store_update_keeps_wf(*old(self), *self, idx as int);
        }
        if n == 0 {
            let ghost pre = *self;
            let closing = self.fds.remove(idx);
            let _ = sys_close(closing.as_raw_fd());
            proof {
                pre.fds@.remove_ensures(idx as int);
                lemma_store_remove_keeps_wf(pre, *self, idx as int);
                assert forall|g: i32| final(self).is_watched(g)
                    implies old(self).is_watched(g) by {
                    let i = choose|i: int| 0 <= i < self.fds@.len()
                        && (#[trigger] self.fds@[i]).spec_fd() == g;
                    let orig = if i < idx as int { i } else { i + 1 };
                    assert(old(self).fds@[orig].spec_fd() == g);
                }
                let gone = old(self).fds@[idx as int].spec_fd();
                assert forall|k: int| 0 <= k < self.fds@.len()
                    implies (#[trigger] self.fds@[k]).spec_fd() != gone by {
                    let orig = if k < idx as int { k } else { k + 1 };
                    assert(pre.fds@[if orig < idx as int { orig } else { idx as int }].spec_fd()
                        != pre.fds@[if orig < idx as int { idx as int } else { orig }].spec_fd());
                }
            }
            return Ok(None);
        }
        let fd = self.fds[idx].as_raw_fd();
        let bytes = self.fds[idx].data_to_vec();
        proof {
            assert(self.fds@[idx as int].spec_fd() == fd);
            assert(old(self).fds@[idx as int].spec_fd() == fd);
            lemma_watched_index_at(*self, idx as int);
            assert(self.watched_data(fd) == self.fds@[idx as int].spec_data());
            assert(bytes@.len() <= self.fds@[idx as int].spec_capacity());
        }
        Ok(Some(Event::File(fd, bytes)))
    }
}

/// Whether the payload of a kernel event names a watched descriptor.
pub open spec fn payload_watched(w: Watcher, data: u64) -> bool {
    exists|fd: i32| #[trigger] w.is_watched(fd) && fd as u64 == data
}

/// What a caller may rely on of an event the watcher yields, stated of the
/// watcher right after the poll: a signal event carries the non-negative
/// number decoded from the signal record just read; a file event carries a
/// watched descriptor and exactly the non-empty bytes its buffer holds from
/// the read just performed, at most its registered capacity.
pub open spec fn event_sound(e: Event, w: Watcher) -> bool {
    match e {
        Event::Signal(s) => s >= 0
            && w.last_signal_record().len() >= 4
            && s == signo_of_record(w.last_signal_record()),
        Event::File(fd, bytes) => w.is_watched(fd)
            && bytes@.len() > 0
            && bytes@ == w.watched_data(fd)
            && bytes@.len() <= w.watched_capacity(fd),
    }
}

/// What the watcher invariant gives a caller: the signal descriptor is
/// valid, watched descriptors are valid and distinct from it, and every
/// watched signal number is a valid one.
pub proof fn lemma_watcher_wf_facts(w: &Watcher)
    requires
        w.wf(),
    ensures
        w.spec_signal_fd() >= 0,
        forall|i: int| 0 <= i < w.spec_signals().len()
            ==> 1 <= #[trigger] w.spec_signals()[i] <= 31,
        forall|fd: i32| #[trigger] w.is_watched(fd) ==> fd >= 0 && fd != w.spec_signal_fd(),
{
    assert forall|fd: i32| #[trigger] w.is_watched(fd)
        implies fd >= 0 && fd != w.spec_signal_fd() by {
        let i = choose|i: int| 0 <= i < w.fds@.len()
            && (#[trigger] w.fds@[i]).spec_fd() == fd;
        assert(w.fds@[i].spec_fd() >= 0 && w.fds@[i].spec_fd() != w.signal_fd);
    }
}

/// A watched descriptor has exactly one store slot, so the chosen index is
/// the slot that holds it.
proof fn lemma_watched_index_at(w: Watcher, i: int)
    requires
        w.wf(),
        0 <= i < w.fds@.len(),
    ensures
        w.is_watched(w.fds@[i].spec_fd()),
        w.watched_index(w.fds@[i].spec_fd()) == i,
{
    let fd = w.fds@[i].spec_fd();
    assert(w.is_watched(fd));
    let k = w.watched_index(fd);
    assert(0 <= k < w.fds@.len() && w.fds@[k].spec_fd() == fd);
    if k != i {
        assert(w.fds@[if k < i { k } else { i }].spec_fd()
            != w.fds@[if k < i { i } else { k }].spec_fd());
    }
}

/// Two watchers with the same descriptor store watch the same descriptors,
/// whatever their other fields hold.
proof fn lemma_same_store_same_watched(a: Watcher, b: Watcher)
    requires
        a.fds@ == b.fds@,
    ensures
        forall|g: i32| a.is_watched(g) == b.is_watched(g),
{
    assert forall|g: i32| a.is_watched(g) == b.is_watched(g) by {
        if a.is_watched(g) {
            let i = choose|i: int| 0 <= i < a.fds@.len()
                && (#[trigger] a.fds@[i]).spec_fd() == g;
            assert(b.fds@[i].spec_fd() == g);
        }
        if b.is_watched(g) {
            let i = choose|i: int| 0 <= i < b.fds@.len()
                && (#[trigger] b.fds@[i]).spec_fd() == g;
            assert(a.fds@[i].spec_fd() == g);
        }
    }
}

/// Updating the buffer at one index of the store (a read changed its
/// contents, never its descriptor) keeps the watcher invariant.
proof fn lemma_store_update_keeps_wf(pre: Watcher, post: Watcher, at: int)
    requires
        pre.wf(),
        0 <= at < pre.fds@.len(),
        post.epfd == pre.epfd,
        post.signal_fd == pre.signal_fd,
        post.signals@ == pre.signals@,
        post.signal_buf == pre.signal_buf,
        post.fds@.len() == pre.fds@.len(),
        post.fds@[at].wf(),
        post.fds@[at].spec_fd() == pre.fds@[at].spec_fd(),
        forall|i: int| 0 <= i < pre.fds@.len() && i != at
            ==> #[trigger] post.fds@[i] == pre.fds@[i],
    ensures
        post.wf(),
        forall|g: i32| post.is_watched(g) == pre.is_watched(g),
{
    assert forall|g: i32| post.is_watched(g) == pre.is_watched(g) by {
        assert forall|i: int| 0 <= i < pre.fds@.len()
            implies (#[trigger] post.fds@[i]).spec_fd() == pre.fds@[i].spec_fd() by {
        }
        if pre.is_watched(g) {
            let i = choose|i: int| 0 <= i < pre.fds@.len()
                && (#[trigger] pre.fds@[i]).spec_fd() == g;
            assert(post.fds@[i].spec_fd() == g);
        }
        if post.is_watched(g) {
            let i = choose|i: int| 0 <= i < post.fds@.len()
                && (#[trigger] post.fds@[i]).spec_fd() == g;
            assert(pre.fds@[i].spec_fd() == g);
        }
    }
}

/// Dropping one buffer from the store keeps the watcher invariant.
proof fn lemma_store_remove_keeps_wf(pre: Watcher, post: Watcher, at: int)
    requires
        pre.wf(),
        0 <= at < pre.fds@.len(),
        post.epfd == pre.epfd,
        post.signal_fd == pre.signal_fd,
        post.signals@ == pre.signals@,
        post.signal_buf == pre.signal_buf,
        post.fds@ == pre.fds@.remove(at),
    ensures
        post.wf(),
{
    pre.fds@.remove_ensures(at);
    assert forall|i: int, j: int| 0 <= i < j < post.fds@.len()
        implies (#[trigger] post.fds@[i]).spec_fd() != (#[trigger] post.fds@[j]).spec_fd() by {
        let oi = if i < at { i } else { i + 1 };
        let oj = if j < at { j } else { j + 1 };
        assert(pre.fds@[oi].spec_fd() != pre.fds@[oj].spec_fd());
    }
}

} // verus!
