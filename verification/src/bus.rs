//! Per-stream fan-out bus: batches incoming bytes and pushes them to sinks.
//!
//! A `Bus` owns an ordered sequence of consumers (sinks) and a staging buffer
//! of fixed capacity. Bytes thrown into the bus with [`Bus::consume`] are
//! copied into the staging buffer; whenever the buffer becomes exactly full it
//! is flushed to every sink in insertion order. A capacity of zero means
//! "unbuffered": every batch goes straight to the sinks.
//!
//! The whole behaviour is captured by the ghost [`BusModel`] and the two
//! transition functions [`consume_model`] and [`flush_model`]; each exec
//! operation's `ensures` ties the new state to the model, and the laws at the
//! bottom of the module are proved of the model alone.
//!
//! A bus does not flush itself when dropped: a destructor carries no contract
//! here, so the owner flushes explicitly instead — the run loop flushes a
//! reaped service's buses at once and every bus again at teardown.

use vstd::prelude::*;

verus! {

/// Error surfaced by a sink that could not accept bytes. `code` carries the
/// operating-system error number where the sink has one.
#[derive(Debug, Clone, Copy, PartialEq, Eq, Structural)]
pub struct SinkError {
    pub code: i32,
}

/// A write-only byte consumer. The core requires nothing of a sink beyond
/// this contract: on success the batch was appended to the bytes the sink has
/// accepted so far, on failure the sink accepted nothing of the batch.
pub trait Sink: Sized {
    /// All bytes this sink has accepted so far, in order. A sink that lives
    /// outside the verified world and models nothing may leave the default.
    open spec fn sunk(&self) -> Seq<u8> {
        Seq::empty()
    }

    /// The error of this sink's most recent write, where that write failed;
    /// `None` after a successful write. It ties an error a bus surfaces to
    /// the sink that returned it. A sink that never fails may leave the
    /// default.
    open spec fn failed(&self) -> Option<SinkError> {
        None
    }

    /// Deliver one batch to the sink.
    fn write(&mut self, data: &[u8]) -> (r: Result<(), SinkError>)
        ensures
            r is Ok ==> final(self).sunk() == old(self).sunk() + data@
                && final(self).failed() is None,
            r matches Err(e) ==> final(self).sunk() == old(self).sunk()
                && final(self).failed() == Some(e),
    ;
}

/// A sink that keeps every byte it accepts in memory. It is the crate's own
/// reference sink: it never fails, and it counts how many batches it was
/// handed, so a test can observe how often a bus flushed.
pub struct VecSink {
    /// Every byte accepted, in order.
    pub data: Vec<u8>,
    /// How many `write` calls this sink has received (saturating).
    pub batches: usize,
}

impl VecSink {
    /// An empty sink.
    pub fn new() -> (s: VecSink)
        ensures
            s.sunk() == Seq::<u8>::empty(),
            s.batches == 0,
    {
        VecSink { data: Vec::new(), batches: 0 }
    }
}

impl Sink for VecSink {
    open spec fn sunk(&self) -> Seq<u8> {
        self.data@
    }

    fn write(&mut self, data: &[u8]) -> (r: Result<(), SinkError>) {
        self.data.extend_from_slice(data);
        if self.batches < usize::MAX {
            self.batches = self.batches + 1;
        }
        Ok(())
    }
}

/// Ghost state of a bus: the staging capacity, the bytes currently staged,
/// per-consumer the bytes delivered so far (in insertion order), and how many
/// non-empty flushes have run.
#[verifier::ext_equal]
pub struct BusModel {
    pub cap: nat,
    pub staged: Seq<u8>,
    pub sunk: Seq<Seq<u8>>,
    pub flushes: nat,
}

/// A bus never stages more than its capacity.
pub open spec fn wf_model(m: BusModel) -> bool {
    m.staged.len() <= m.cap
}

/// A delivery of `batch` that stopped at consumer `j`: every consumer before
/// `j` received the batch, `j` and those after it received nothing.
pub open spec fn delivered_up_to(pre: BusModel, post: BusModel, batch: Seq<u8>, j: int) -> bool {
    &&& 0 <= j < pre.sunk.len()
    &&& post.sunk.len() == pre.sunk.len()
    &&& forall|i: int| 0 <= i < j ==> #[trigger] post.sunk[i] == pre.sunk[i] + batch
    &&& forall|i: int| j <= i < pre.sunk.len() ==> #[trigger] post.sunk[i] == pre.sunk[i]
}

/// What a flush does: nothing on an empty staging buffer; otherwise the
/// staged bytes are appended to every consumer and the buffer is reset.
pub open spec fn flush_model(m: BusModel) -> BusModel {
    if m.staged.len() == 0 {
        m
    } else {
        BusModel {
            cap: m.cap,
            staged: Seq::empty(),
            sunk: Seq::new(m.sunk.len(), |i: int| m.sunk[i] + m.staged),
            flushes: m.flushes + 1,
        }
    }
}

/// What a consume does. Unbuffered (capacity zero): the batch goes to every
/// consumer directly. Buffered: the batch is staged, and each time the buffer
/// becomes exactly full it is flushed; so of the bytes `staged + d` the
/// longest prefix that is a multiple of the capacity is delivered, and the
/// remainder stays staged.
pub open spec fn consume_model(m: BusModel, d: Seq<u8>) -> BusModel {
    if d.len() == 0 {
        m
    } else if m.cap == 0 {
        BusModel {
            cap: m.cap,
            staged: m.staged,
            sunk: Seq::new(m.sunk.len(), |i: int| m.sunk[i] + d),
            flushes: m.flushes,
        }
    } else {
        let all = m.staged + d;
        let k = all.len() as int / m.cap as int;
        BusModel {
            cap: m.cap,
            staged: all.skip(k * m.cap),
            sunk: Seq::new(m.sunk.len(), |i: int| m.sunk[i] + all.take(k * m.cap)),
            flushes: m.flushes + k as nat,
        }
    }
}

/// Per-stream batching fan-out to sinks.
pub struct Bus<S: Sink> {
    cap: usize,
    staged: Vec<u8>,
    consumers: Vec<S>,
    flushes: Ghost<nat>,
}

impl<S: Sink> Bus<S> {
    /// The ghost state of this bus.
    pub closed spec fn model(&self) -> BusModel {
        BusModel {
            cap: self.cap as nat,
            staged: self.staged@,
            sunk: Seq::new(self.consumers@.len(), |i: int| self.consumers@[i].sunk()),
            flushes: self.flushes@,
        }
    }

    /// The error of consumer `j`'s most recent write, where that write
    /// failed.
    pub closed spec fn consumer_failed(&self, j: int) -> Option<SinkError> {
        self.consumers@[j].failed()
    }

    /// Invariant: the staging buffer never holds more than the capacity.
    pub open spec fn wf(&self) -> bool {
        wf_model(self.model())
    }

    /// An empty bus with the given staging capacity; zero means unbuffered.
    pub fn new(bufsize: usize) -> (b: Bus<S>)
        ensures
            b.wf(),
            b.model() == (BusModel {
                cap: bufsize as nat,
                staged: Seq::<u8>::empty(),
                sunk: Seq::<Seq<u8>>::empty(),
                flushes: 0,
            }),
    {
        let b = Bus { cap: bufsize, staged: Vec::new(), consumers: Vec::new(), flushes: Ghost(0) };
        proof {
            assert(b.model() =~= BusModel {
                cap: bufsize as nat,
                staged: Seq::<u8>::empty(),
                sunk: Seq::<Seq<u8>>::empty(),
                flushes: 0,
            });
        }
        b
    }

    /// Borrow the sinks, in insertion order. The bytes each one has accepted
    /// are the model's per-consumer record.
    pub fn consumers(&self) -> (r: &Vec<S>)
        ensures
            r@.len() == self.model().sunk.len(),
            forall|i: int| 0 <= i < r@.len()
                ==> (#[trigger] r@[i]).sunk() == self.model().sunk[i],
    {
        &self.consumers
    }

    /// Append a sink; delivery order to sinks equals insertion order.
    pub fn add_consumer(&mut self, consumer: S)
        ensures
            final(self).model() == (BusModel {
                sunk: old(self).model().sunk.push(consumer.sunk()),
                ..old(self).model()
            }),
            final(self).wf() == old(self).wf(),
    {
        self.consumers.push(consumer);
        proof {
            assert(self.model().sunk =~= old(self).model().sunk.push(consumer.sunk()));
            assert(self.model() =~= BusModel {
                sunk: old(self).model().sunk.push(consumer.sunk()),
                ..old(self).model()
            });
        }
    }

    /// Write the staged bytes to every sink in order, then reset the buffer.
    /// A zero-length flush is a no-op. On a sink error the error surfaces at
    /// once: the sinks before the failing one received the batch, the failing
    /// one and those after it received nothing, and the buffer is not reset.
    pub fn flush(&mut self) -> (r: Result<(), SinkError>)
        requires
            old(self).wf(),
        ensures
            final(self).wf(),
            r is Ok ==> final(self).model() == flush_model(old(self).model()),
            old(self).model().staged.len() == 0 ==> r is Ok,
            old(self).model().sunk.len() == 0 ==> r is Ok,
            r matches Err(e) ==> final(self).model().cap == old(self).model().cap
                && final(self).model().staged == old(self).model().staged
                && final(self).model().flushes == old(self).model().flushes
                && (exists|j: int| #[trigger] delivered_up_to(
                    old(self).model(), final(self).model(), old(self).model().staged, j)
                    && final(self).consumer_failed(j) == Some(e)),
    {
        if self.staged.len() == 0 {
            return Ok(());
        }
        let ghost pre = self.model();
        let mut idx: usize = 0;
        while idx < self.consumers.len()
            invariant
                old(self).wf(),
                pre == old(self).model(),
                0 <= idx <= self.consumers@.len(),
                self.cap == old(self).cap,
                self.staged@ == pre.staged,
                self.flushes@ == pre.flushes,
                self.consumers@.len() == pre.sunk.len(),
                pre.staged.len() > 0,
                forall|i: int| 0 <= i < idx ==> #[trigger] self.consumers@[i].sunk()
                    == pre.sunk[i] + pre.staged,
                forall|i: int| idx <= i < pre.sunk.len() ==> #[trigger] self.consumers@[i].sunk()
                    == pre.sunk[i],
            decreases self.consumers@.len() - idx,
        {
            let consumer = &mut self.consumers[idx];
            match consumer.write(self.staged.as_slice()) {
                Ok(()) => {}
                Err(e) => {
                    proof {
                        assert(self.model().staged == pre.staged);
                        assert(delivered_up_to(pre, self.model(), pre.staged, idx as int));
                        assert(self.consumer_failed(idx as int) == Some(e));
                    }
                    return Err(e);
                }
            }
            idx = idx + 1;
        }
        self.staged.clear();
        proof {
            self.flushes@ = pre.flushes + 1;
        }
        proof {
            assert(self.model().sunk =~= flush_model(pre).sunk);
            assert(self.model() =~= flush_model(pre));
        }
        Ok(())
    }

    /// Throw a batch of bytes into the bus. Unbuffered: forward the batch to
    /// every sink in order. Buffered: copy the batch into the staging buffer,
    /// flushing each time it becomes exactly full. On a sink error the error
    /// surfaces at once; every sink still holds some prefix of what was thrown
    /// in plus what it had before.
    pub fn consume(&mut self, data: &[u8]) -> (r: Result<(), SinkError>)
        requires
            old(self).wf(),
        ensures
            final(self).wf(),
            r is Ok ==> final(self).model() == consume_model(old(self).model(), data@),
            data@.len() == 0 ==> r is Ok,
            old(self).model().sunk.len() == 0 ==> r is Ok,
            old(self).model().cap > 0
                && old(self).model().staged.len() + data@.len() < old(self).model().cap
                ==> r is Ok,
            r matches Err(e) ==> final(self).model().cap == old(self).model().cap
                && final(self).model().sunk.len() == old(self).model().sunk.len()
                && (exists|j: int| 0 <= j < old(self).model().sunk.len()
                    && #[trigger] final(self).consumer_failed(j) == Some(e))
                && (forall|i: int| 0 <= i < old(self).model().sunk.len()
                    ==> (#[trigger] old(self).model().sunk[i]).is_prefix_of(
                        final(self).model().sunk[i])),
            r is Err && old(self).model().cap == 0
                ==> final(self).model().staged == old(self).model().staged
                    && final(self).model().flushes == old(self).model().flushes
                    && (exists|j: int| #[trigger] delivered_up_to(
                        old(self).model(), final(self).model(), data@, j)),
    {
        proof {
            lemma_sunk_prefix_reflexive(old(self).model());
        }
        if data.len() == 0 {
            proof {
                assert(self.model() =~= consume_model(old(self).model(), data@));
            }
            return Ok(());
        }
        if self.cap == 0 {
            return self.consume_unbuffered(data);
        }
        let ghost pre = self.model();
        let ghost all = pre.staged + data@;
        let num_bytes = data.len();
        let mut bytes_left = num_bytes;
        proof {
            let flushed0 = (self.flushes@ - pre.flushes) * pre.cap;
            let arrived0 = all.take(pre.staged.len() + num_bytes - bytes_left);
            let diff: int = self.flushes@ - pre.flushes;
            assert(diff * pre.cap == 0) by (nonlinear_arith)
                requires
                    diff == 0,
            ;
            assert(flushed0 == 0);
            assert(arrived0.skip(flushed0) =~= pre.staged);
            assert(self.staged@ == arrived0.skip(flushed0));
            assert forall|i: int| 0 <= i < pre.sunk.len()
                implies #[trigger] self.consumers@[i].sunk()
                    == pre.sunk[i] + all.take(flushed0) by {
                assert(self.consumers@[i].sunk() == pre.sunk[i]);
                assert(pre.sunk[i] + all.take(0) =~= pre.sunk[i]);
            }
        }
        while bytes_left > 0
            invariant
                old(self).wf(),
                pre == old(self).model(),
                all == pre.staged + data@,
                data@.len() == num_bytes,
                num_bytes > 0,
                0 <= bytes_left <= num_bytes,
                self.cap == old(self).cap,
                self.cap > 0,
                self.consumers@.len() == pre.sunk.len(),
                self.staged@.len() <= self.cap,
                bytes_left < num_bytes ==> self.staged@.len() < self.cap,
                self.flushes@ >= pre.flushes,
                ({
                    let flushed = (self.flushes@ - pre.flushes) * pre.cap;
                    let arrived = all.take(pre.staged.len() + num_bytes - bytes_left);
                    &&& 0 <= flushed <= arrived.len()
                    &&& self.staged@ == arrived.skip(flushed)
                    &&& forall|i: int| 0 <= i < pre.sunk.len()
                        ==> #[trigger] self.consumers@[i].sunk() == pre.sunk[i] + all.take(flushed)
                }),
            decreases bytes_left + if self.staged@.len() == self.cap { 1int } else { 0int },
        {
            let ghost flushed = (self.flushes@ - pre.flushes) * pre.cap;
            let ghost arrived = all.take(pre.staged.len() + num_bytes - bytes_left);
            let available_space = self.cap - self.staged.len();
            let bytes_to_consume = if available_space < bytes_left {
                available_space
            } else {
                bytes_left
            };
            let start_idx = num_bytes - bytes_left;
            let ghost arrived2 = all.take(
                pre.staged.len() + num_bytes - (bytes_left - bytes_to_consume));
            self.staged.extend_from_slice(&data[start_idx..start_idx + bytes_to_consume]);
            proof {
                assert(self.staged@ =~= arrived2.skip(flushed));
                assert(forall|i: int| 0 <= i < pre.sunk.len()
                    ==> #[trigger] self.consumers@[i].sunk() == pre.sunk[i] + all.take(flushed));
            }
            if self.staged.len() == self.cap {
                let ghost at_call = self.model();
                proof {
                    assert(at_call.staged == arrived2.skip(flushed));
                    assert(at_call.staged.len() == pre.cap);
                    assert(arrived2.len() == flushed + pre.cap);
                }
                match self.flush() {
                    Ok(()) => {}
                    Err(e) => {
                        proof {
                            lemma_err_prefix(pre, at_call, self.model(), all, flushed);
                            let j = choose|j: int| #[trigger] delivered_up_to(
                                at_call, self.model(), at_call.staged, j)
                                && self.consumer_failed(j) == Some(e);
                            assert(0 <= j < pre.sunk.len());
                            assert(arrived2.len() <= all.len());
                        }
                        return Err(e);
                    }
                }
                proof {
                    assert(self.model() == flush_model(at_call));
                    assert(at_call.sunk.len() == pre.sunk.len());
                    assert(self.model().sunk.len() == at_call.sunk.len());
                    assert(self.consumers@.len() == self.model().sunk.len());
                    assert(self.staged@ =~= arrived2.skip(flushed + pre.cap));
                    assert(all.take(flushed) + at_call.staged =~= all.take(flushed + pre.cap));
                    assert forall|i: int| 0 <= i < pre.sunk.len()
                        implies #[trigger] self.consumers@[i].sunk()
                            == pre.sunk[i] + all.take(flushed + pre.cap) by {
                        assert(self.consumers@[i].sunk() == self.model().sunk[i]);
                        assert(self.model().sunk[i] == at_call.sunk[i] + at_call.staged);
                        assert(at_call.sunk[i] == pre.sunk[i] + all.take(flushed));
                        assert(pre.sunk[i] + all.take(flushed) + at_call.staged
                            =~= pre.sunk[i] + (all.take(flushed) + at_call.staged));
                    }
                    assert(self.flushes@ == at_call.flushes + 1);
                    assert((self.flushes@ - pre.flushes) * pre.cap == flushed + pre.cap) by {
                        assert((at_call.flushes - pre.flushes + 1) * pre.cap
                            == (at_call.flushes - pre.flushes) * pre.cap + 1 * pre.cap)
                            by (nonlinear_arith);
                    }
                }
            }
            bytes_left = bytes_left - bytes_to_consume;
        }
        proof {
            assert(all.take(pre.staged.len() + num_bytes - 0) =~= all);
            lemma_consume_final(pre, self.model(), data@, all);
        }
        Ok(())
    }

    /// Forward one batch straight to every sink, in order; nothing is staged.
    fn consume_unbuffered(&mut self, data: &[u8]) -> (r: Result<(), SinkError>)
        requires
            old(self).wf(),
            old(self).model().cap == 0,
            data@.len() > 0,
        ensures
            final(self).wf(),
            r is Ok ==> final(self).model() == consume_model(old(self).model(), data@),
            old(self).model().sunk.len() == 0 ==> r is Ok,
            r matches Err(e) ==> final(self).model().cap == old(self).model().cap
                && final(self).model().staged == old(self).model().staged
                && final(self).model().flushes == old(self).model().flushes
                && final(self).model().sunk.len() == old(self).model().sunk.len()
                && (exists|j: int| #[trigger] delivered_up_to(
                    old(self).model(), final(self).model(), data@, j)
                    && final(self).consumer_failed(j) == Some(e))
                && (forall|i: int| 0 <= i < old(self).model().sunk.len()
                    ==> (#[trigger] old(self).model().sunk[i]).is_prefix_of(
                        final(self).model().sunk[i])),
    {
        proof {
            lemma_sunk_prefix_reflexive(old(self).model());
        }
        let ghost pre = self.model();
        let mut idx: usize = 0;
        while idx < self.consumers.len()
            invariant
                old(self).wf(),
                pre == old(self).model(),
                0 <= idx <= self.consumers@.len(),
                self.cap == old(self).cap,
                self.staged@ == pre.staged,
                self.flushes@ == pre.flushes,
                self.consumers@.len() == pre.sunk.len(),
                forall|i: int| 0 <= i < idx ==> #[trigger] self.consumers@[i].sunk()
                    == pre.sunk[i] + data@,
                forall|i: int| idx <= i < pre.sunk.len() ==> #[trigger] self.consumers@[i].sunk()
                    == pre.sunk[i],
            decreases self.consumers@.len() - idx,
        {
            let consumer = &mut self.consumers[idx];
            match consumer.write(data) {
                Ok(()) => {}
                Err(e) => {
                    proof {
                        assert(delivered_up_to(pre, self.model(), data@, idx as int));
                        assert(self.consumer_failed(idx as int) == Some(e));
                        lemma_sunk_prefix_mixed(pre, self.model(), data@, idx as int);
                    }
                    return Err(e);
                }
            }
            idx = idx + 1;
        }
        proof {
            assert(self.model().sunk =~= consume_model(pre, data@).sunk);
            assert(self.model() =~= consume_model(pre, data@));
        }
        Ok(())
    }
}

/// Every sequence is a prefix of itself; stated of a model's sinks so the
/// unchanged case of `consume` discharges its prefix clause.
proof fn lemma_sunk_prefix_reflexive(m: BusModel)
    ensures
        forall|i: int| 0 <= i < m.sunk.len()
            ==> (#[trigger] m.sunk[i]).is_prefix_of(m.sunk[i]),
{
    assert forall|i: int| 0 <= i < m.sunk.len()
        implies (#[trigger] m.sunk[i]).is_prefix_of(m.sunk[i]) by {
        assert(m.sunk[i].take(m.sunk[i].len() as int) =~= m.sunk[i]);
    }
}

/// After a partial delivery (some sinks got `d` appended, the rest nothing)
/// each sink still holds its old bytes as a prefix.
proof fn lemma_sunk_prefix_mixed(pre: BusModel, post: BusModel, d: Seq<u8>, j: int)
    requires
        post.sunk.len() == pre.sunk.len(),
        0 <= j < pre.sunk.len(),
        forall|i: int| 0 <= i < j ==> #[trigger] post.sunk[i] == pre.sunk[i] + d,
        forall|i: int| j <= i < pre.sunk.len() ==> #[trigger] post.sunk[i] == pre.sunk[i],
    ensures
        forall|i: int| 0 <= i < pre.sunk.len()
            ==> (#[trigger] pre.sunk[i]).is_prefix_of(post.sunk[i]),
{
    assert forall|i: int| 0 <= i < pre.sunk.len()
        implies (#[trigger] pre.sunk[i]).is_prefix_of(post.sunk[i]) by {
        if i < j {
            assert((pre.sunk[i] + d).take(pre.sunk[i].len() as int) =~= pre.sunk[i]);
        } else {
            assert(pre.sunk[i].take(pre.sunk[i].len() as int) =~= pre.sunk[i]);
        }
    }
}

/// A flush that failed mid-way through the consumers of a buffered consume
/// still leaves every sink with its old bytes as a prefix.
proof fn lemma_err_prefix(pre: BusModel, at_call: BusModel, post: BusModel, all: Seq<u8>, flushed: int)
    requires
        0 <= flushed <= all.len(),
        at_call.sunk.len() == pre.sunk.len(),
        forall|i: int| 0 <= i < pre.sunk.len()
            ==> #[trigger] at_call.sunk[i] == pre.sunk[i] + all.take(flushed),
        exists|j: int| #[trigger] delivered_up_to(at_call, post, at_call.staged, j),
    ensures
        forall|i: int| 0 <= i < pre.sunk.len()
            ==> (#[trigger] pre.sunk[i]).is_prefix_of(post.sunk[i]),
{
    let j = choose|j: int| #[trigger] delivered_up_to(at_call, post, at_call.staged, j);
    assert forall|i: int| 0 <= i < pre.sunk.len()
        implies (#[trigger] pre.sunk[i]).is_prefix_of(post.sunk[i]) by {
        if i < j {
            assert(post.sunk[i] == pre.sunk[i] + all.take(flushed) + at_call.staged);
            assert((pre.sunk[i] + all.take(flushed) + at_call.staged)
                .take(pre.sunk[i].len() as int) =~= pre.sunk[i]);
        } else {
            assert(post.sunk[i] == pre.sunk[i] + all.take(flushed));
            assert((pre.sunk[i] + all.take(flushed)).take(pre.sunk[i].len() as int)
                =~= pre.sunk[i]);
        }
    }
}

/// At the end of a buffered consume the number of staged bytes is below the
/// capacity, so the count of flushes performed equals the whole division of
/// the arrived bytes by the capacity, as `consume_model` states.
proof fn lemma_consume_final(pre: BusModel, post: BusModel, d: Seq<u8>, all: Seq<u8>)
    requires
        pre.cap > 0,
        d.len() > 0,
        all == pre.staged + d,
        post.cap == pre.cap,
        post.sunk.len() == pre.sunk.len(),
        post.staged.len() < pre.cap,
        post.flushes >= pre.flushes,
        ({
            let flushed = (post.flushes - pre.flushes) * pre.cap;
            &&& 0 <= flushed <= all.len()
            &&& post.staged == all.skip(flushed)
            &&& forall|i: int| 0 <= i < pre.sunk.len()
                ==> #[trigger] post.sunk[i] == pre.sunk[i] + all.take(flushed)
        }),
    ensures
        post == consume_model(pre, d),
{
    let flushed = (post.flushes - pre.flushes) * pre.cap;
    let q = post.flushes - pre.flushes;
    let r = all.len() - flushed;
    assert(0 <= r < pre.cap);
    vstd::arithmetic::div_mod::lemma_fundamental_div_mod_converse_div(
        all.len() as int, pre.cap as int, q, r);
    assert(q == all.len() as int / pre.cap as int);
    let m2 = consume_model(pre, d);
    assert(m2.staged == all.skip(q * pre.cap));
    assert(post.sunk =~= m2.sunk);
    assert(post =~= m2);
}

/// Concatenation of a sequence of byte batches, in order.
pub open spec fn concat_all(ds: Seq<Seq<u8>>) -> Seq<u8>
    decreases ds.len(),
{
    if ds.len() == 0 {
        Seq::empty()
    } else {
        ds[0] + concat_all(ds.skip(1))
    }
}

/// The model state after consuming a sequence of batches, in order.
pub open spec fn consume_all_model(m: BusModel, ds: Seq<Seq<u8>>) -> BusModel
    decreases ds.len(),
{
    if ds.len() == 0 {
        m
    } else {
        consume_all_model(consume_model(m, ds[0]), ds.skip(1))
    }
}

/// One consume conserves bytes: per consumer, delivered plus staged grows by
/// exactly the consumed batch, and the consumer count and capacity stay.
pub proof fn lemma_consume_model_conserves(m: BusModel, d: Seq<u8>)
    requires
        wf_model(m),
    ensures
        wf_model(consume_model(m, d)),
        consume_model(m, d).cap == m.cap,
        consume_model(m, d).sunk.len() == m.sunk.len(),
        m.cap == 0 ==> consume_model(m, d).staged == m.staged,
        forall|i: int| 0 <= i < m.sunk.len()
            ==> #[trigger] consume_model(m, d).sunk[i] + consume_model(m, d).staged
                == m.sunk[i] + m.staged + d,
{
    let m2 = consume_model(m, d);
    if d.len() == 0 {
        assert forall|i: int| 0 <= i < m.sunk.len()
            implies #[trigger] m2.sunk[i] + m2.staged == m.sunk[i] + m.staged + d by {
            assert(m.sunk[i] + m.staged + d =~= m.sunk[i] + m.staged);
        }
    } else if m.cap == 0 {
        assert(m.staged.len() == 0);
        assert forall|i: int| 0 <= i < m.sunk.len()
            implies #[trigger] m2.sunk[i] + m2.staged == m.sunk[i] + m.staged + d by {
            assert(m.sunk[i] + d + m.staged =~= m.sunk[i] + m.staged + d);
        }
    } else {
        let all = m.staged + d;
        let k = all.len() as int / m.cap as int;
        vstd::arithmetic::div_mod::lemma_fundamental_div_mod(all.len() as int, m.cap as int);
        vstd::arithmetic::div_mod::lemma_mod_division_less_than_divisor(
            all.len() as int, m.cap as int);
        vstd::arithmetic::div_mod::lemma_div_pos_is_pos(all.len() as int, m.cap as int);
        vstd::arithmetic::mul::lemma_mul_nonnegative(k, m.cap as int);
        assert(m.cap as int * k == k * m.cap as int) by (nonlinear_arith);
        assert(0 <= k * m.cap <= all.len());
        assert(all.len() - k * m.cap < m.cap);
        assert forall|i: int| 0 <= i < m.sunk.len()
            implies #[trigger] m2.sunk[i] + m2.staged == m.sunk[i] + m.staged + d by {
            assert(all.take(k * m.cap) + all.skip(k * m.cap) =~= all);
            assert(m.sunk[i] + all.take(k * m.cap) + all.skip(k * m.cap)
                =~= m.sunk[i] + (m.staged + d));
            assert(m.sunk[i] + (m.staged + d) =~= m.sunk[i] + m.staged + d);
        }
    }
}

/// Consuming a sequence of batches conserves bytes: per consumer, delivered
/// plus staged grows by exactly the concatenation of the batches.
pub proof fn lemma_consume_all_model_conserves(m: BusModel, ds: Seq<Seq<u8>>)
    requires
        wf_model(m),
    ensures
        wf_model(consume_all_model(m, ds)),
        consume_all_model(m, ds).cap == m.cap,
        consume_all_model(m, ds).sunk.len() == m.sunk.len(),
        forall|i: int| 0 <= i < m.sunk.len()
            ==> #[trigger] consume_all_model(m, ds).sunk[i] + consume_all_model(m, ds).staged
                == m.sunk[i] + m.staged + concat_all(ds),
    decreases ds.len(),
{
    if ds.len() == 0 {
        assert forall|i: int| 0 <= i < m.sunk.len()
            implies #[trigger] consume_all_model(m, ds).sunk[i]
                + consume_all_model(m, ds).staged
                == m.sunk[i] + m.staged + concat_all(ds) by {
            assert(m.sunk[i] + m.staged + concat_all(ds) =~= m.sunk[i] + m.staged);
        }
    } else {
        let m1 = consume_model(m, ds[0]);
        lemma_consume_model_conserves(m, ds[0]);
        lemma_consume_all_model_conserves(m1, ds.skip(1));
        let mn = consume_all_model(m, ds);
        assert(mn == consume_all_model(m1, ds.skip(1)));
        assert forall|i: int| 0 <= i < m.sunk.len()
            implies #[trigger] mn.sunk[i] + mn.staged
                == m.sunk[i] + m.staged + concat_all(ds) by {
            assert(mn.sunk[i] + mn.staged == m1.sunk[i] + m1.staged + concat_all(ds.skip(1)));
            assert(m1.sunk[i] + m1.staged == m.sunk[i] + m.staged + ds[0]);
            assert(m.sunk[i] + m.staged + ds[0] + concat_all(ds.skip(1))
                =~= m.sunk[i] + m.staged + (ds[0] + concat_all(ds.skip(1))));
        }
    }
}

/// Law: for any sequence of consumes ending with a flush, the bytes delivered
/// to each sink are exactly the concatenation of the consumed batches, in
/// order (starting from a bus whose staging buffer is empty).
pub proof fn lemma_consume_all_then_flush_delivers_concat(m: BusModel, ds: Seq<Seq<u8>>)
    requires
        wf_model(m),
        m.staged.len() == 0,
    ensures
        flush_model(consume_all_model(m, ds)).sunk.len() == m.sunk.len(),
        forall|i: int| 0 <= i < m.sunk.len()
            ==> #[trigger] flush_model(consume_all_model(m, ds)).sunk[i]
                == m.sunk[i] + concat_all(ds),
{
    lemma_consume_all_model_conserves(m, ds);
    let mn = consume_all_model(m, ds);
    let mf = flush_model(mn);
    assert forall|i: int| 0 <= i < m.sunk.len()
        implies #[trigger] mf.sunk[i] == m.sunk[i] + concat_all(ds) by {
        assert(mn.sunk[i] + mn.staged == m.sunk[i] + m.staged + concat_all(ds));
        if mn.staged.len() == 0 {
            assert(mn.sunk[i] + mn.staged =~= mn.sunk[i]);
            assert(m.sunk[i] + m.staged + concat_all(ds) =~= m.sunk[i] + concat_all(ds));
        } else {
            assert(mf.sunk[i] == mn.sunk[i] + mn.staged);
            assert(m.sunk[i] + m.staged + concat_all(ds) =~= m.sunk[i] + concat_all(ds));
        }
    }
}

/// Law: an unbuffered bus (capacity zero) hands every batch straight to each
/// consumer; nothing is staged and nothing is flushed on the way.
pub proof fn lemma_unbuffered_consume_is_direct(m: BusModel, d: Seq<u8>)
    requires
        m.cap == 0,
    ensures
        consume_model(m, d).staged == m.staged,
        consume_model(m, d).flushes == m.flushes,
        consume_model(m, d).sunk.len() == m.sunk.len(),
        forall|i: int| 0 <= i < m.sunk.len()
            ==> #[trigger] consume_model(m, d).sunk[i] == m.sunk[i] + d,
{
    let m2 = consume_model(m, d);
    if d.len() == 0 {
        assert forall|i: int| 0 <= i < m.sunk.len()
            implies #[trigger] m2.sunk[i] == m.sunk[i] + d by {
            assert(m.sunk[i] + d =~= m.sunk[i]);
        }
    }
}

/// Law: flushing twice in a row is the same as flushing once; the second
/// flush delivers nothing.
pub proof fn lemma_flush_model_idempotent(m: BusModel)
    ensures
        flush_model(flush_model(m)) == flush_model(m),
{
}

/// Law: a consume of more than `n` times the capacity flushes at least `n`
/// times internally.
pub proof fn lemma_consume_model_flush_count(m: BusModel, d: Seq<u8>, n: nat)
    requires
        wf_model(m),
        m.cap > 0,
        d.len() > n * m.cap,
    ensures
        consume_model(m, d).flushes >= m.flushes + n,
{
    let all = m.staged + d;
    let k = all.len() as int / m.cap as int;
    assert(all.len() >= d.len());
    assert(all.len() as int >= n * m.cap) by (nonlinear_arith)
        requires
            d.len() > n * m.cap,
            all.len() >= d.len(),
    ;
    vstd::arithmetic::div_mod::lemma_div_is_ordered(
        (n * m.cap) as int, all.len() as int, m.cap as int);
    vstd::arithmetic::div_mod::lemma_div_by_multiple(n as int, m.cap as int);
    assert(k >= n);
}

} // verus!
