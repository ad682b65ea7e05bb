//! Glue of the run loop: the map from stream descriptors to their buses,
//! dispatch of file events into it, and the wiring of configured consumers to
//! the captured streams of live services.
//!
//! The loop itself — wait for an event, dispatch, until the registry is empty
//! — performs the waiting outside this crate; every decision it takes stands
//! here with a contract: [`BusMap::consume_fd`] for file events,
//! [`crate::registry::Registry::reap_step`] for child signals,
//! [`BusMap::flush_fd`] for the streams of a reaped service, and
//! [`resolve_consumer_fd`] for the wiring done at startup.

use vstd::prelude::*;

use crate::bus::Bus;
use crate::bus::BusModel;
use crate::bus::Sink;
use crate::bus::SinkError;
use crate::bus::consume_model;
use crate::bus::delivered_up_to;
use crate::bus::flush_model;
use crate::bus::wf_model;
use crate::conf::ProducerConf;
use crate::registry::Registry;
use crate::service::Service;
use crate::service::owns_fd;

verus! {

/// The signal number of a child-state change, the one signal the supervisor
/// watches.
pub const SIGCHLD: i32 = 17;

/// Per-stream buses, keyed by the stream's descriptor.
pub struct BusMap<S: Sink> {
    fds: Vec<i32>,
    buses: Vec<Bus<S>>,
}

impl<S: Sink> BusMap<S> {
    /// The keys, in insertion order.
    pub closed spec fn spec_fds(&self) -> Seq<i32> {
        self.fds@
    }

    /// The models of the buses, in key order.
    pub closed spec fn models(&self) -> Seq<BusModel> {
        Seq::new(self.buses@.len(), |i: int| self.buses@[i].model())
    }

    /// Whether a bus is keyed by `fd`.
    pub open spec fn contains_fd(&self, fd: i32) -> bool {
        exists|i: int| 0 <= i < self.spec_fds().len() && #[trigger] self.spec_fds()[i] == fd
    }

    /// The error of the most recent failed write of consumer `j` of the bus
    /// at index `i`.
    pub closed spec fn consumer_failed_at(&self, i: int, j: int) -> Option<SinkError> {
        self.buses@[i].consumer_failed(j)
    }

    /// Invariant: one bus per key, keys distinct, every bus well formed.
    pub closed spec fn wf(&self) -> bool {
        &&& self.fds@.len() == self.buses@.len()
        &&& forall|i: int, j: int| 0 <= i < j < self.fds@.len()
            ==> #[trigger] self.fds@[i] != #[trigger] self.fds@[j]
        &&& forall|i: int| 0 <= i < self.buses@.len() ==> (#[trigger] self.buses@[i]).wf()
    }

    /// An empty map.
    pub fn new() -> (r: BusMap<S>)
        ensures
            r.wf(),
            r.spec_fds().len() == 0,
            r.models().len() == 0,
    {
        let r = BusMap { fds: Vec::new(), buses: Vec::new() };
        proof {
            assert(r.models() =~= Seq::<BusModel>::empty());
        }
        r
    }

    /// How many buses the map holds.
    pub fn len(&self) -> (r: usize)
        requires
            self.wf(),
        ensures
            r == self.spec_fds().len(),
            r == self.models().len(),
    {
        self.fds.len()
    }

    /// Key `bus` by `fd`. Returns false and changes nothing when `fd` already
    /// has a bus.
    pub fn insert(&mut self, fd: i32, bus: Bus<S>) -> (r: bool)
        requires
            old(self).wf(),
            bus.wf(),
        ensures
            final(self).wf(),
            r == !old(self).contains_fd(fd),
            r ==> final(self).spec_fds() == old(self).spec_fds().push(fd)
                && final(self).models() == old(self).models().push(bus.model()),
            !r ==> final(self).spec_fds() == old(self).spec_fds()
                && final(self).models() == old(self).models(),
    {
        let n = self.fds.len();
        let mut idx: usize = 0;
        while idx < n
            invariant
                old(self).wf(),
                self == old(self),
                n == self.fds@.len(),
                0 <= idx <= n,
                forall|i: int| 0 <= i < idx ==> #[trigger] self.fds@[i] != fd,
            decreases n - idx,
        {
            if self.fds[idx] == fd {
                proof {
                    assert(self.spec_fds()[idx as int] == fd);
                }
                return false;
            }
            idx = idx + 1;
        }
        let ghost pre = *self;
        self.fds.push(fd);
        self.buses.push(bus);
        proof {
            assert(self.models() =~= pre.models().push(bus.model()));
        }
        true
    }

    /// Append a sink to the bus keyed by `fd`; delivery order equals
    /// insertion order. Returns false and changes nothing when no bus is
    /// keyed by `fd`.
    pub fn add_consumer_fd(&mut self, fd: i32, sink: S) -> (r: bool)
        requires
            old(self).wf(),
        ensures
            final(self).wf(),
            final(self).spec_fds() == old(self).spec_fds(),
            r == old(self).contains_fd(fd),
            r ==> exists|i: int| 0 <= i < old(self).spec_fds().len()
                && #[trigger] old(self).spec_fds()[i] == fd
                && final(self).models() == old(self).models().update(i, BusModel {
                    sunk: old(self).models()[i].sunk.push(sink.sunk()),
                    ..old(self).models()[i]
                }),
            !r ==> final(self).models() == old(self).models(),
    {
        let n = self.fds.len();
        let mut idx: usize = 0;
        while idx < n
            invariant
                old(self).wf(),
                self == old(self),
                n == self.fds@.len(),
                0 <= idx <= n,
                forall|i: int| 0 <= i < idx ==> #[trigger] self.fds@[i] != fd,
            decreases n - idx,
        {
            if self.fds[idx] == fd {
                let ghost pre = *self;
                proof {
                    assert(pre.spec_fds()[idx as int] == fd);
                }
                let bus = &mut self.buses[idx];
                bus.add_consumer(sink);
                proof {
                    assert(self.models() =~= pre.models().update(idx as int, BusModel {
                        sunk: pre.models()[idx as int].sunk.push(sink.sunk()),
                        ..pre.models()[idx as int]
                    }));
                }
                return true;
            }
            idx = idx + 1;
        }
        false
    }

    /// Take the bus keyed by `fd` out of the map, if there is one: the owner
    /// of a torn-down stream collects its bus this way.
    pub fn take_bus(&mut self, fd: i32) -> (r: Option<Bus<S>>)
        requires
            old(self).wf(),
        ensures
            final(self).wf(),
            r is None <==> !old(self).contains_fd(fd),
            r is None ==> final(self).spec_fds() == old(self).spec_fds()
                && final(self).models() == old(self).models(),
            r matches Some(b) ==> b.wf() && exists|i: int|
                0 <= i < old(self).spec_fds().len()
                && #[trigger] old(self).spec_fds()[i] == fd
                && b.model() == old(self).models()[i]
                && final(self).spec_fds() == old(self).spec_fds().remove(i)
                && final(self).models() == old(self).models().remove(i),
    {
        let n = self.fds.len();
        let mut idx: usize = 0;
        while idx < n
            invariant
                old(self).wf(),
                self == old(self),
                n == self.fds@.len(),
                0 <= idx <= n,
                forall|i: int| 0 <= i < idx ==> #[trigger] self.fds@[i] != fd,
            decreases n - idx,
        {
            if self.fds[idx] == fd {
                let ghost pre = *self;
                let ghost at = idx as int;
                proof {
                    assert(pre.spec_fds()[at] == fd);
                }
                self.fds.remove(idx);
                let bus = self.buses.remove(idx);
                proof {
                    pre.fds@.remove_ensures(at);
                    pre.models().remove_ensures(at);
                    assert forall|i: int, j: int| 0 <= i < j < self.fds@.len()
                        implies #[trigger] self.fds@[i] != #[trigger] self.fds@[j] by {
                        let oi = if i < at { i } else { i + 1 };
                        let oj = if j < at { j } else { j + 1 };
                        assert(pre.fds@[oi] != pre.fds@[oj]);
                    }
                    assert(bus.model() == pre.models()[at]);
                    assert(self.models() =~= pre.models().remove(at));
                }
                return Some(bus);
            }
            idx = idx + 1;
        }
        None
    }

    /// Dispatch a file event: throw `data` into the bus keyed by `fd`. An
    /// event for a descriptor without a bus is dropped (`Ok(false)`), as when
    /// a stream is watched but has no consumers configured.
    pub fn consume_fd(&mut self, fd: i32, data: &[u8]) -> (r: Result<bool, SinkError>)
        requires
            old(self).wf(),
        ensures
            final(self).wf(),
            final(self).spec_fds() == old(self).spec_fds(),
            r matches Ok(b) ==> b == old(self).contains_fd(fd),
            data@.len() == 0 ==> r is Ok,
            forall|i: int| 0 <= i < old(self).models().len()
                && #[trigger] old(self).spec_fds()[i] == fd
                && ((#[trigger] old(self).models()[i]).sunk.len() == 0
                    || (old(self).models()[i].cap > 0
                        && old(self).models()[i].staged.len() + data@.len()
                            < old(self).models()[i].cap))
                ==> r is Ok,
            r == Ok::<bool, SinkError>(false) ==> final(self).models() == old(self).models(),
            r == Ok::<bool, SinkError>(true) ==> exists|i: int|
                0 <= i < old(self).spec_fds().len()
                && #[trigger] old(self).spec_fds()[i] == fd
                && final(self).models() == old(self).models().update(
                    i, consume_model(old(self).models()[i], data@)),
            r matches Err(e) ==> exists|i: int| 0 <= i < old(self).spec_fds().len()
                && #[trigger] old(self).spec_fds()[i] == fd
                && (exists|j: int| 0 <= j < old(self).models()[i].sunk.len()
                    && #[trigger] final(self).consumer_failed_at(i, j) == Some(e))
                && (forall|j: int| 0 <= j < old(self).models().len() && j != i
                    ==> final(self).models()[j] == old(self).models()[j])
                && (forall|k: int| 0 <= k < old(self).models()[i].sunk.len()
                    ==> (#[trigger] old(self).models()[i].sunk[k]).is_prefix_of(
                        final(self).models()[i].sunk[k])),
    {
        let n = self.fds.len();
        let mut idx: usize = 0;
        while idx < n
            invariant
                old(self).wf(),
                self == old(self),
                n == self.fds@.len(),
                0 <= idx <= n,
                forall|i: int| 0 <= i < idx ==> #[trigger] self.fds@[i] != fd,
            decreases n - idx,
        {
            if self.fds[idx] == fd {
                let ghost pre = *self;
                proof {
                    assert(pre.spec_fds()[idx as int] == fd);
                }
                let bus = &mut self.buses[idx];
                let r = bus.consume(data);
                proof {
                    assert(forall|j: int| 0 <= j < self.buses@.len() && j != idx
                        ==> #[trigger] self.models()[j] == pre.models()[j]);
                    assert forall|i: int| 0 <= i < pre.spec_fds().len()
                        && pre.spec_fds()[i] == fd implies i == idx as int by {
                        if i != idx as int {
                            assert(pre.fds@[if i < idx as int { i } else { idx as int }]
                                != pre.fds@[if i < idx as int { idx as int } else { i }]);
                        }
                    }
                }
                match r {
                    Ok(()) => {
                        proof {
                            assert(self.models() =~= pre.models().update(
                                idx as int, consume_model(pre.models()[idx as int], data@)));
                        }
                        return Ok(true);
                    }
                    Err(e) => {
                        proof {
                            let at = idx as int;
                            assert(self.models()[at] == self.buses@[at].model());
                            assert(pre.models()[at] == pre.buses@[at].model());
                            let j = choose|j: int| 0 <= j < pre.buses@[at].model().sunk.len()
                                && #[trigger] self.buses@[at].consumer_failed(j) == Some(e);
                            assert(self.consumer_failed_at(at, j) == Some(e));
                        }
                        return Err(e);
                    }
                }
            }
            idx = idx + 1;
        }
        Ok(false)
    }

    /// Flush the bus keyed by `fd`, if there is one. Run when the service
    /// owning the stream was reaped: the bus may still hold bytes staged
    /// before the stream's end.
    pub fn flush_fd(&mut self, fd: i32) -> (r: Result<bool, SinkError>)
        requires
            old(self).wf(),
        ensures
            final(self).wf(),
            final(self).spec_fds() == old(self).spec_fds(),
            r matches Ok(b) ==> b == old(self).contains_fd(fd),
            r == Ok::<bool, SinkError>(false) ==> final(self).models() == old(self).models(),
            r == Ok::<bool, SinkError>(true) ==> exists|i: int|
                0 <= i < old(self).spec_fds().len()
                && #[trigger] old(self).spec_fds()[i] == fd
                && final(self).models() == old(self).models().update(
                    i, flush_model(old(self).models()[i])),
            forall|i: int| 0 <= i < old(self).models().len()
                && #[trigger] old(self).spec_fds()[i] == fd
                && ((#[trigger] old(self).models()[i]).staged.len() == 0
                    || old(self).models()[i].sunk.len() == 0)
                ==> r is Ok,
            r matches Err(e) ==> exists|i: int| 0 <= i < old(self).spec_fds().len()
                && #[trigger] old(self).spec_fds()[i] == fd
                && (forall|j: int| 0 <= j < old(self).models().len() && j != i
                    ==> final(self).models()[j] == old(self).models()[j])
                && (exists|k: int| #[trigger] delivered_up_to(
                    old(self).models()[i], final(self).models()[i],
                    old(self).models()[i].staged, k)
                    && final(self).consumer_failed_at(i, k) == Some(e)),
    {
        let n = self.fds.len();
        let mut idx: usize = 0;
        while idx < n
            invariant
                old(self).wf(),
                self == old(self),
                n == self.fds@.len(),
                0 <= idx <= n,
                forall|i: int| 0 <= i < idx ==> #[trigger] self.fds@[i] != fd,
            decreases n - idx,
        {
            if self.fds[idx] == fd {
                let ghost pre = *self;
                proof {
                    assert(pre.spec_fds()[idx as int] == fd);
                }
                let bus = &mut self.buses[idx];
                let r = bus.flush();
                proof {
                    assert(forall|j: int| 0 <= j < self.buses@.len() && j != idx
                        ==> #[trigger] self.models()[j] == pre.models()[j]);
                    assert forall|i: int| 0 <= i < pre.spec_fds().len()
                        && pre.spec_fds()[i] == fd implies i == idx as int by {
                        if i != idx as int {
                            assert(pre.fds@[if i < idx as int { i } else { idx as int }]
                                != pre.fds@[if i < idx as int { idx as int } else { i }]);
                        }
                    }
                }
                match r {
                    Ok(()) => {
                        proof {
                            assert(self.models() =~= pre.models().update(
                                idx as int, flush_model(pre.models()[idx as int])));
                        }
                        return Ok(true);
                    }
                    Err(e) => {
                        proof {
                            let at = idx as int;
                            assert(self.models()[at] == self.buses@[at].model());
                            assert(pre.models()[at] == pre.buses@[at].model());
                            let k = choose|k: int| #[trigger] delivered_up_to(
                                pre.buses@[at].model(), self.buses@[at].model(),
                                pre.buses@[at].model().staged, k)
                                && self.buses@[at].consumer_failed(k) == Some(e);
                            assert(delivered_up_to(pre.models()[at], self.models()[at],
                                pre.models()[at].staged, k));
                            assert(self.consumer_failed_at(at, k) == Some(e));
                        }
                        return Err(e);
                    }
                }
            }
            idx = idx + 1;
        }
        Ok(false)
    }

    /// Flush the buses of both captured streams of a reaped service; a child
    /// signal may arrive before the final bytes' events, so staged bytes can
    /// still sit here. On success the bus of each stream the service owns is
    /// flushed and every other bus is untouched. A stream without a bus is
    /// skipped.
    pub fn flush_service(&mut self, svc: &Service) -> (r: Result<(), SinkError>)
        requires
            old(self).wf(),
        ensures
            final(self).wf(),
            final(self).spec_fds() == old(self).spec_fds(),
            r is Ok ==> final(self).models().len() == old(self).models().len()
                && (forall|i: int| 0 <= i < old(self).models().len()
                    ==> #[trigger] final(self).models()[i] == (
                        if owns_fd(*svc, old(self).spec_fds()[i]) {
                            flush_model(old(self).models()[i])
                        } else {
                            old(self).models()[i]
                        })),
            r matches Err(e) ==> exists|i: int, j: int|
                0 <= i < final(self).models().len() && 0 <= j
                && #[trigger] final(self).consumer_failed_at(i, j) == Some(e),
    {
        let ghost pre = *self;
        match svc.stdout {
            Some(fd) => {
                match self.flush_fd(fd) {
                    Ok(_) => {}
                    Err(e) => {
                        proof {
                            assert(exists|i: int, j: int|
                                0 <= i < self.models().len() && 0 <= j
                                && #[trigger] self.consumer_failed_at(i, j) == Some(e));
                        }
                        return Err(e);
                    }
                }
            }
            None => {}
        }
        let ghost mid = *self;
        proof {
            lemma_one_stream_flushed(pre, mid, svc.stdout);
        }
        match svc.stderr {
            Some(fd) => {
                match self.flush_fd(fd) {
                    Ok(_) => {}
                    Err(e) => {
                        proof {
                            assert(exists|i: int, j: int|
                                0 <= i < self.models().len() && 0 <= j
                                && #[trigger] self.consumer_failed_at(i, j) == Some(e));
                        }
                        return Err(e);
                    }
                }
            }
            None => {}
        }
        proof {
            lemma_one_stream_flushed(mid, *self, svc.stderr);
            assert forall|i: int| 0 <= i < pre.models().len()
                implies #[trigger] self.models()[i] == (
                    if owns_fd(*svc, pre.spec_fds()[i]) {
                        flush_model(pre.models()[i])
                    } else {
                        pre.models()[i]
                    }) by {
                let g = pre.spec_fds()[i];
                if svc.stderr == Some(g) && svc.stdout == Some(g) {
                    crate::bus::lemma_flush_model_idempotent(pre.models()[i]);
                }
            }
        }
        Ok(())
    }

    /// Flush every bus, in key order: the final drain of the run loop. On a
    /// sink error the buses before the failing one are flushed and the error
    /// surfaces.
    pub fn flush_all(&mut self) -> (r: Result<(), SinkError>)
        requires
            old(self).wf(),
        ensures
            final(self).wf(),
            final(self).spec_fds() == old(self).spec_fds(),
            r is Ok ==> final(self).models().len() == old(self).models().len()
                && (forall|i: int| 0 <= i < old(self).models().len()
                    ==> #[trigger] final(self).models()[i]
                        == flush_model(old(self).models()[i])),
            (forall|i: int| 0 <= i < old(self).models().len()
                ==> (#[trigger] old(self).models()[i]).staged.len() == 0
                    || old(self).models()[i].sunk.len() == 0)
                ==> r is Ok,
            r matches Err(e) ==> exists|i: int, j: int| 0 <= i < old(self).models().len()
                && 0 <= j < old(self).models()[i].sunk.len()
                && #[trigger] final(self).consumer_failed_at(i, j) == Some(e),
    {
        let n = self.buses.len();
        let mut idx: usize = 0;
        while idx < n
            invariant
                old(self).wf(),
                n == self.buses@.len(),
                self.fds@ == old(self).fds@,
                self.buses@.len() == old(self).buses@.len(),
                self.wf(),
                0 <= idx <= n,
                forall|i: int| 0 <= i < idx ==> #[trigger] self.models()[i]
                    == flush_model(old(self).models()[i]),
                forall|i: int| idx <= i < n ==> #[trigger] self.models()[i]
                    == old(self).models()[i],
            decreases n - idx,
        {
            let ghost pre = *self;
            let bus = &mut self.buses[idx];
            match bus.flush() {
                Ok(()) => {}
                Err(e) => {
                    proof {
                        let at = idx as int;
                        assert(pre.models()[at] == old(self).models()[at]);
                        assert(pre.models()[at] == pre.buses@[at].model());
                        assert(self.models()[at] == self.buses@[at].model());
                        let k = choose|k: int| #[trigger] delivered_up_to(
                            pre.buses@[at].model(), self.buses@[at].model(),
                            pre.buses@[at].model().staged, k)
                            && self.buses@[at].consumer_failed(k) == Some(e);
                        assert(self.consumer_failed_at(at, k) == Some(e));
                        assert(0 <= k < old(self).models()[at].sunk.len());
                        assert(old(self).models()[at].staged.len() > 0);
                    }
                    return Err(e);
                }
            }
            proof {
                assert(self.models()[idx as int] == flush_model(pre.models()[idx as int]));
                assert(forall|j: int| 0 <= j < n && j != idx
                    ==> #[trigger] self.models()[j] == pre.models()[j]);
            }
            idx = idx + 1;
        }
        Ok(())
    }
}

/// What the map invariant gives a caller: keys and buses pair up, keys are
/// pairwise distinct, and every bus model is well formed.
pub proof fn lemma_busmap_wf_facts<S: Sink>(m: &BusMap<S>)
    requires
        m.wf(),
    ensures
        m.spec_fds().len() == m.models().len(),
        forall|i: int, j: int| 0 <= i < j < m.spec_fds().len()
            ==> #[trigger] m.spec_fds()[i] != #[trigger] m.spec_fds()[j],
        forall|i: int| 0 <= i < m.models().len() ==> wf_model(#[trigger] m.models()[i]),
{
    assert forall|i: int| 0 <= i < m.models().len()
        implies wf_model(#[trigger] m.models()[i]) by {
        assert(m.buses@[i].wf());
        assert(m.models()[i] == m.buses@[i].model());
    }
}

/// One `flush_fd` step of a teardown pass, read pointwise: the bus keyed by
/// the given stream descriptor (if any) was flushed, every other bus is
/// untouched.
proof fn lemma_one_stream_flushed<S: Sink>(
    pre: BusMap<S>,
    post: BusMap<S>,
    stream: Option<i32>,
)
    requires
        pre.wf(),
        post.spec_fds() == pre.spec_fds(),
        post.models().len() == pre.models().len(),
        match stream {
            None => post.models() == pre.models(),
            Some(fd) => {
                ||| (!pre.contains_fd(fd) && post.models() == pre.models())
                ||| exists|i0: int| 0 <= i0 < pre.spec_fds().len()
                    && #[trigger] pre.spec_fds()[i0] == fd
                    && post.models() == pre.models().update(
                        i0, flush_model(pre.models()[i0]))
            },
        },
    ensures
        forall|i: int| 0 <= i < pre.models().len()
            ==> #[trigger] post.models()[i] == (
                if stream == Some(pre.spec_fds()[i]) {
                    flush_model(pre.models()[i])
                } else {
                    pre.models()[i]
                }),
{
    assert forall|i: int| 0 <= i < pre.models().len()
        implies #[trigger] post.models()[i] == (
            if stream == Some(pre.spec_fds()[i]) {
                flush_model(pre.models()[i])
            } else {
                pre.models()[i]
            }) by {
        match stream {
            None => {}
            Some(fd) => {
                if pre.contains_fd(fd) {
                    let i0 = choose|i0: int| 0 <= i0 < pre.spec_fds().len()
                        && #[trigger] pre.spec_fds()[i0] == fd
                        && post.models() == pre.models().update(
                            i0, flush_model(pre.models()[i0]));
                    if pre.spec_fds()[i] == fd && i != i0 {
                        assert(pre.spec_fds()[if i < i0 { i } else { i0 }]
                            != pre.spec_fds()[if i < i0 { i0 } else { i }]);
                    }
                }
            }
        }
    }
}

/// Why a configured consumer could not be wired to a stream.
#[derive(Debug, Clone, Copy, PartialEq, Eq, Structural)]
pub enum WireError {
    /// No live service has the name the consumer entry names.
    NoSuchService,
    /// The named service exists but the named stream is not captured.
    StreamOff,
}

/// The service name a producer entry points at.
pub open spec fn producer_name(p: ProducerConf) -> Seq<char> {
    match p {
        ProducerConf::StdOut(n) => n@,
        ProducerConf::StdErr(n) => n@,
    }
}

/// The captured descriptor of the stream a producer entry points at.
pub open spec fn producer_stream(s: Service, p: ProducerConf) -> Option<i32> {
    match p {
        ProducerConf::StdOut(_) => s.stdout,
        ProducerConf::StdErr(_) => s.stderr,
    }
}

/// Resolve one configured consumer entry to the descriptor of the stream it
/// reads: the named service's captured stdout or stderr. Errs when no service
/// has that name, or the named stream is switched off.
pub fn resolve_consumer_fd(registry: &Registry, consumes: &ProducerConf)
    -> (r: Result<i32, WireError>)
    requires
        registry.wf(),
    ensures
        r is Ok <==> exists|i: int| 0 <= i < registry.svcs().len()
            && (#[trigger] registry.svcs()[i]).name@ == producer_name(*consumes)
            && producer_stream(registry.svcs()[i], *consumes) is Some,
        r matches Ok(fd) ==> exists|i: int| 0 <= i < registry.svcs().len()
            && (#[trigger] registry.svcs()[i]).name@ == producer_name(*consumes)
            && producer_stream(registry.svcs()[i], *consumes) == Some(fd),
        r == Err::<i32, WireError>(WireError::NoSuchService)
            <==> !registry.has_name(producer_name(*consumes)),
    {
    let name: &String = match consumes {
        ProducerConf::StdOut(n) => n,
        ProducerConf::StdErr(n) => n,
    };
    let svc = match registry.get_by_name(name) {
        Some(s) => s,
        None => {
            proof {
                assert forall|i: int|
                    0 <= i < registry.svcs().len()
                    implies !((#[trigger] registry.svcs()[i]).name@
                        == producer_name(*consumes)
                        && producer_stream(registry.svcs()[i], *consumes) is Some) by {
                }
            }
            return Err(WireError::NoSuchService);
        }
    };
    let stream = match consumes {
        ProducerConf::StdOut(_) => svc.stdout,
        ProducerConf::StdErr(_) => svc.stderr,
    };
    match stream {
        Some(fd) => {
            proof {
                let k = choose|k: int| 0 <= k < registry.svcs().len()
                    && #[trigger] registry.svcs()[k] == *svc;
                assert(registry.svcs()[k].name@ == producer_name(*consumes));
                assert(producer_stream(registry.svcs()[k], *consumes) == Some(fd));
            }
            Ok(fd)
        }
        None => {
            proof {
                let k = choose|k: int| 0 <= k < registry.svcs().len()
                    && #[trigger] registry.svcs()[k] == *svc;
                assert forall|i: int|
                    0 <= i < registry.svcs().len()
                    && (#[trigger] registry.svcs()[i]).name@ == producer_name(*consumes)
                    implies producer_stream(registry.svcs()[i], *consumes) is None by {
                    if i != k {
                        assert(registry.svcs()[i].name@ != registry.svcs()[k].name@);
                    }
                }
                assert(registry.has_name(producer_name(*consumes)));
            }
            Err(WireError::StreamOff)
        }
    }
}

} // verus!
