//! Owning collection of live services, indexed by process id, name and
//! captured stream descriptors, together with the child-reaping protocol.
//!
//! The registry holds each service exactly once; names, pids and captured
//! descriptors are unique across it ([`Registry::wf`]). Removal by pid drops
//! the service and all its index entries atomically. Two ghost sets record
//! which pids were ever admitted and which were reaped, so that "the registry
//! is empty exactly when every admitted child has been reaped" is a theorem
//! ([`lemma_empty_iff_all_reaped`]).

use vstd::prelude::*;

use nix::errno::Errno;
use nix::sys::wait::WaitPidFlag;
use nix::sys::wait::WaitStatus;
use nix::sys::wait::waitpid;

use crate::service::ChildExit;
use crate::service::Service;
use crate::service::exit_decision;
use crate::service::fds_disjoint;
use crate::service::fds_distinct;
use crate::service::owns_fd;
use crate::service::service_owns_fd;
use crate::service::spec_exit_decision;

verus! {

/// One observation of the operating system's wait channel, as plain values.
pub enum WaitEvent {
    /// A child exited: its pid and exit status.
    Exited(i32, i32),
    /// A child was killed by a signal: its pid.
    Signaled(i32),
    /// A child changed state in some other way (stopped, continued); the
    /// reaper ignores it.
    Other(i32),
    /// Children exist but none has exited yet.
    NoneReady,
    /// There are no children at all.
    NoChildren,
    /// The wait call itself failed with this error number.
    Failed(i32),
}

/// Relies on nix::sys::wait::waitpid with WNOHANG: collects one already-exited
/// child without blocking; ECHILD means there are no children left. Which
/// child (if any) is reported depends on the operating system, so nothing is
/// promised of the result.
#[verifier::external_body]
fn wait_next_child() -> WaitEvent {
    match waitpid(None, Some(WaitPidFlag::WNOHANG)) {
        Ok(WaitStatus::Exited(pid, status)) => WaitEvent::Exited(pid.as_raw(), status),
        Ok(WaitStatus::Signaled(pid, _, _)) => WaitEvent::Signaled(pid.as_raw()),
        Ok(WaitStatus::StillAlive) => WaitEvent::NoneReady,
        Ok(other) => WaitEvent::Other(other.pid().map(|p| p.as_raw()).unwrap_or(-1)),
        Err(Errno::ECHILD) => WaitEvent::NoChildren,
        Err(e) => WaitEvent::Failed(e as i32),
    }
}

/// Outcome of one reaping step.
pub enum ReapStep {
    /// A registered child was collected and removed from the registry; the
    /// caller should flush the buses of its streams.
    Reaped(Service),
    /// A registered, critical child failed: the supervisor must terminate
    /// with this code. The child was removed first.
    Critical(i32),
    /// An exited child that is not in the registry; nothing changed.
    Stranger,
    /// A state change the reaper ignores; nothing changed.
    Other,
    /// Children exist but none has exited; the pass is over.
    NoneReady,
    /// No children are left at all; the pass is over.
    NoChildren,
    /// The wait call failed with this error number; the pass is over and
    /// another runs on the next child signal.
    WaitFailed(i32),
}

/// Owner of all live services, keyed by name, pid and captured descriptors.
pub struct Registry {
    services: Vec<Service>,
    admitted_pids: Ghost<Set<int>>,
    reaped_pids: Ghost<Set<int>>,
}

impl Registry {
    /// The live services, in insertion order (up to removals).
    pub closed spec fn svcs(&self) -> Seq<Service> {
        self.services@
    }

    /// Pids of every service ever admitted.
    pub closed spec fn admitted(&self) -> Set<int> {
        self.admitted_pids@
    }

    /// Pids of every service reaped (removed) so far.
    pub closed spec fn reaped(&self) -> Set<int> {
        self.reaped_pids@
    }

    /// Some live service owns `fd` as a captured stream descriptor.
    pub open spec fn has_fd(&self, fd: i32) -> bool {
        exists|i: int| 0 <= i < self.svcs().len() && owns_fd(#[trigger] self.svcs()[i], fd)
    }

    /// Some live service has this pid.
    pub open spec fn has_pid(&self, pid: i32) -> bool {
        exists|i: int| 0 <= i < self.svcs().len() && (#[trigger] self.svcs()[i]).pid == pid
    }

    /// Some live service has this name.
    pub open spec fn has_name(&self, name: Seq<char>) -> bool {
        exists|i: int| 0 <= i < self.svcs().len() && (#[trigger] self.svcs()[i]).name@ == name
    }

    /// Invariant: names, pids and captured descriptors are unique across the
    /// registry; every live service was admitted and not yet reaped; every
    /// admitted pid is either reaped or still live.
    pub open spec fn wf(&self) -> bool {
        &&& forall|i: int, j: int| 0 <= i < j < self.svcs().len()
            ==> (#[trigger] self.svcs()[i]).pid != (#[trigger] self.svcs()[j]).pid
        &&& forall|i: int, j: int| 0 <= i < j < self.svcs().len()
            ==> (#[trigger] self.svcs()[i]).name@ != (#[trigger] self.svcs()[j]).name@
        &&& forall|i: int, j: int| 0 <= i < j < self.svcs().len()
            ==> fds_disjoint(#[trigger] self.svcs()[i], #[trigger] self.svcs()[j])
        &&& forall|i: int| 0 <= i < self.svcs().len()
            ==> fds_distinct(#[trigger] self.svcs()[i])
        &&& forall|i: int| 0 <= i < self.svcs().len()
            ==> self.admitted().contains((#[trigger] self.svcs()[i]).pid as int)
                && !self.reaped().contains(self.svcs()[i].pid as int)
        &&& forall|p: int| #[trigger] self.admitted().contains(p)
            ==> self.reaped().contains(p) || exists|i: int|
                0 <= i < self.svcs().len() && (#[trigger] self.svcs()[i]).pid as int == p
    }

    /// An empty registry.
    pub fn new() -> (r: Registry)
        ensures
            r.wf(),
            r.svcs() == Seq::<Service>::empty(),
            r.admitted() == Set::<int>::empty(),
            r.reaped() == Set::<int>::empty(),
    {
        Registry {
            services: Vec::new(),
            admitted_pids: Ghost(Set::empty()),
            reaped_pids: Ghost(Set::empty()),
        }
    }

    /// Whether no live service is left; the run loop stops on this.
    pub fn is_empty(&self) -> (r: bool)
        ensures
            r == (self.svcs().len() == 0),
    {
        self.services.len() == 0
    }

    /// How many live services there are.
    pub fn len(&self) -> (r: usize)
        ensures
            r == self.svcs().len(),
    {
        self.services.len()
    }

    /// Whether `s` could be admitted: its name, pid and captured descriptors
    /// clash with no live service, and its own two descriptors differ.
    pub open spec fn can_insert(&self, s: Service) -> bool {
        &&& !self.has_pid(s.pid)
        &&& !self.has_name(s.name@)
        &&& forall|i: int| 0 <= i < self.svcs().len()
            ==> fds_disjoint(#[trigger] self.svcs()[i], s)
        &&& fds_distinct(s)
    }

    /// Admit a freshly spawned service. Returns true and installs it in every
    /// index exactly when nothing about it clashes with a live service;
    /// returns false and changes nothing otherwise (a duplicate is a
    /// programming error, surfaced to the caller).
    pub fn insert(&mut self, s: Service) -> (r: bool)
        requires
            old(self).wf(),
        ensures
            final(self).wf(),
            r == old(self).can_insert(s),
            r ==> final(self).svcs() == old(self).svcs().push(s)
                && final(self).admitted() == old(self).admitted().insert(s.pid as int)
                && final(self).reaped() == old(self).reaped().remove(s.pid as int),
            !r ==> final(self).svcs() == old(self).svcs()
                && final(self).admitted() == old(self).admitted()
                && final(self).reaped() == old(self).reaped(),
    {
        let fd_ok = match (s.stdout, s.stderr) {
            (Some(a), Some(b)) => a != b,
            _ => true,
        };
        if !fd_ok {
            return false;
        }
        let n = self.services.len();
        let mut idx: usize = 0;
        while idx < n
            invariant
                old(self).wf(),
                n == self.svcs().len(),
                0 <= idx <= n,
                self == old(self),
                forall|i: int| 0 <= i < idx ==> (#[trigger] self.svcs()[i]).pid != s.pid,
                forall|i: int| 0 <= i < idx ==> (#[trigger] self.svcs()[i]).name@ != s.name@,
                forall|i: int| 0 <= i < idx ==> fds_disjoint(#[trigger] self.svcs()[i], s),
            decreases n - idx,
        {
            let other = &self.services[idx];
            if other.pid == s.pid {
                return false;
            }
            if other.name == s.name {
                return false;
            }
            let clash = match s.stdout {
                Some(fd) => service_owns_fd(other, fd),
                None => false,
            };
            let clash2 = match s.stderr {
                Some(fd) => service_owns_fd(other, fd),
                None => false,
            };
            if clash || clash2 {
                return false;
            }
            proof {
                assert(fds_disjoint(self.svcs()[idx as int], s));
            }
            idx = idx + 1;
        }
        proof {
            assert(!self.has_pid(s.pid));
            assert(!self.has_name(s.name@));
        }
        let ghost pre = *self;
        let ghost snew = s;
        self.services.push(s);
        proof {
            self.admitted_pids@ = self.admitted_pids@.insert(snew.pid as int);
            self.reaped_pids@ = self.reaped_pids@.remove(snew.pid as int);
            lemma_insert_keeps_wf(pre, *self, snew);
        }
        true
    }

    /// Borrow the live service that owns `fd` as a captured descriptor, if
    /// any. `None` exactly when no live service owns it.
    pub fn get_by_fd(&self, fd: i32) -> (r: Option<&Service>)
        ensures
            r matches Some(s) ==> owns_fd(*s, fd)
                && exists|i: int| 0 <= i < self.svcs().len() && #[trigger] self.svcs()[i] == *s,
            r is None <==> !self.has_fd(fd),
    {
        let n = self.services.len();
        let mut idx: usize = 0;
        while idx < n
            invariant
                n == self.svcs().len(),
                0 <= idx <= n,
                forall|i: int| 0 <= i < idx ==> !owns_fd(#[trigger] self.svcs()[i], fd),
            decreases n - idx,
        {
            if service_owns_fd(&self.services[idx], fd) {
                return Some(&self.services[idx]);
            }
            idx = idx + 1;
        }
        None
    }

    /// Borrow the live service with this name, if any. `None` exactly when no
    /// live service has it.
    pub fn get_by_name(&self, name: &String) -> (r: Option<&Service>)
        ensures
            r matches Some(s) ==> s.name@ == name@
                && exists|i: int| 0 <= i < self.svcs().len() && #[trigger] self.svcs()[i] == *s,
            r is None <==> !self.has_name(name@),
    {
        let n = self.services.len();
        let mut idx: usize = 0;
        while idx < n
            invariant
                n == self.svcs().len(),
                0 <= idx <= n,
                forall|i: int| 0 <= i < idx ==> (#[trigger] self.svcs()[i]).name@ != name@,
            decreases n - idx,
        {
            if self.services[idx].name == *name {
                return Some(&self.services[idx]);
            }
            idx = idx + 1;
        }
        None
    }

    /// Remove the live service with this pid. On success every index entry of
    /// the service goes with it: lookups by its pid, its name and either of
    /// its captured descriptors all miss afterwards.
    pub fn remove(&mut self, pid: i32) -> (r: Option<Service>)
        requires
            old(self).wf(),
        ensures
            final(self).wf(),
            final(self).admitted() == old(self).admitted(),
            r is None <==> !old(self).has_pid(pid),
            r is None ==> final(self).svcs() == old(self).svcs()
                && final(self).reaped() == old(self).reaped(),
            r matches Some(s) ==> s.pid == pid
                && (exists|i: int| 0 <= i < old(self).svcs().len()
                    && #[trigger] old(self).svcs()[i] == s
                    && final(self).svcs() == old(self).svcs().remove(i))
                && final(self).reaped() == old(self).reaped().insert(pid as int)
                && !final(self).has_pid(pid)
                && !final(self).has_name(s.name@)
                && (forall|fd: i32| #[trigger] owns_fd(s, fd) ==> !final(self).has_fd(fd)),
    {
        let n = self.services.len();
        let mut idx: usize = 0;
        while idx < n
            invariant
                old(self).wf(),
                n == self.svcs().len(),
                0 <= idx <= n,
                self == old(self),
                forall|i: int| 0 <= i < idx ==> (#[trigger] self.svcs()[i]).pid != pid,
            decreases n - idx,
        {
            if self.services[idx].pid == pid {
                let ghost pre = *self;
                let ghost at = idx as int;
                let s = self.services.remove(idx);
                proof {
                    self.reaped_pids@ = self.reaped_pids@.insert(pid as int);
                    pre.svcs().remove_ensures(at);
                    lemma_remove_keeps_wf(pre, *self, at, pid);
                }
                return Some(s);
            }
            idx = idx + 1;
        }
        None
    }

    /// Make one reaping step: ask the operating system for one already-exited
    /// child and apply the exit rule to it. The caller loops: it keeps
    /// stepping while this returns `Reaped`, `Stranger` or `Other`, stops the
    /// pass on `NoneReady`, `NoChildren` or `WaitFailed`, and terminates the
    /// supervisor on `Critical`.
    pub fn reap_step(&mut self) -> (r: ReapStep)
        requires
            old(self).wf(),
        ensures
            final(self).wf(),
            final(self).admitted() == old(self).admitted(),
            match r {
                ReapStep::Reaped(_) | ReapStep::Critical(_) => true,
                _ => final(self).svcs() == old(self).svcs()
                    && final(self).reaped() == old(self).reaped(),
            },
            r matches ReapStep::Reaped(s) ==> s.pid >= 0
                && (exists|i: int| 0 <= i < old(self).svcs().len()
                    && #[trigger] old(self).svcs()[i] == s
                    && final(self).svcs() == old(self).svcs().remove(i))
                && final(self).reaped() == old(self).reaped().insert(s.pid as int)
                && (forall|fd: i32| #[trigger] owns_fd(s, fd) ==> !final(self).has_fd(fd)),
            r matches ReapStep::Critical(code) ==> code != 0
                && (exists|i: int| 0 <= i < old(self).svcs().len()
                    && (#[trigger] old(self).svcs()[i]).must_be_up
                    && final(self).svcs() == old(self).svcs().remove(i)),
    {
        match wait_next_child() {
            WaitEvent::Exited(pid, status) => {
                if pid >= 0 {
                    self.handle_exit(pid, ChildExit::Exited(status))
                } else {
                    ReapStep::Stranger
                }
            }
            WaitEvent::Signaled(pid) => {
                if pid >= 0 {
                    self.handle_exit(pid, ChildExit::Signaled)
                } else {
                    ReapStep::Stranger
                }
            }
            WaitEvent::Other(_) => ReapStep::Other,
            WaitEvent::NoneReady => ReapStep::NoneReady,
            WaitEvent::NoChildren => ReapStep::NoChildren,
            WaitEvent::Failed(e) => ReapStep::WaitFailed(e),
        }
    }

    /// Apply the exit rule to one observed child exit: remove the child's
    /// service (if it is registered) and decide whether the supervisor itself
    /// must terminate. This is the whole decision logic of the reaper; the
    /// run loop feeds it what the operating system reported.
    pub fn handle_exit(&mut self, pid: i32, e: ChildExit) -> (r: ReapStep)
        requires
            old(self).wf(),
            pid >= 0,
        ensures
            final(self).wf(),
            final(self).admitted() == old(self).admitted(),
            !old(self).has_pid(pid) ==> r == ReapStep::Stranger
                && final(self).svcs() == old(self).svcs()
                && final(self).reaped() == old(self).reaped(),
            old(self).has_pid(pid) ==> exists|i: int|
                0 <= i < old(self).svcs().len()
                && (#[trigger] old(self).svcs()[i]).pid == pid
                && final(self).svcs() == old(self).svcs().remove(i)
                && final(self).reaped() == old(self).reaped().insert(pid as int)
                && (match spec_exit_decision(old(self).svcs()[i].must_be_up, e) {
                    Some(code) => r == ReapStep::Critical(code),
                    None => r == ReapStep::Reaped(old(self).svcs()[i]),
                }),
            r matches ReapStep::Reaped(s) ==> s.pid == pid
                && (exists|i: int| 0 <= i < old(self).svcs().len()
                    && #[trigger] old(self).svcs()[i] == s
                    && final(self).svcs() == old(self).svcs().remove(i))
                && final(self).reaped() == old(self).reaped().insert(pid as int)
                && spec_exit_decision(s.must_be_up, e) is None
                && (forall|fd: i32| #[trigger] owns_fd(s, fd) ==> !final(self).has_fd(fd)),
            r matches ReapStep::Critical(code) ==> code != 0
                && Some(code) == spec_exit_decision(true, e)
                && (exists|i: int| 0 <= i < old(self).svcs().len()
                    && (#[trigger] old(self).svcs()[i]).must_be_up
                    && old(self).svcs()[i].pid == pid
                    && final(self).svcs() == old(self).svcs().remove(i)),
    {
        match self.remove(pid) {
            Some(s) => {
                match exit_decision(s.must_be_up, &e) {
                    Some(code) => ReapStep::Critical(code),
                    None => ReapStep::Reaped(s),
                }
            }
            None => ReapStep::Stranger,
        }
    }
}

/// Admitting a non-clashing service keeps the registry invariant: the new
/// element conflicts with nothing live, and its pid moves into the admitted
/// set (and out of the reaped set, in case the operating system reuses a pid
/// of a child collected earlier).
proof fn lemma_insert_keeps_wf(pre: Registry, post: Registry, s: Service)
    requires
        pre.wf(),
        pre.can_insert(s),
        post.svcs() == pre.svcs().push(s),
        post.admitted() == pre.admitted().insert(s.pid as int),
        post.reaped() == pre.reaped().remove(s.pid as int),
    ensures
        post.wf(),
{
    let n = pre.svcs().len() as int;
    assert forall|k: int| 0 <= k < n
        implies #[trigger] post.svcs()[k] == pre.svcs()[k] by {
    }
    assert(post.svcs()[n] == s);
    assert forall|i: int, j: int| 0 <= i < j < post.svcs().len()
        implies fds_disjoint(#[trigger] post.svcs()[i], #[trigger] post.svcs()[j]) by {
        if j < n {
            assert(fds_disjoint(pre.svcs()[i], pre.svcs()[j]));
        } else {
            assert(fds_disjoint(pre.svcs()[i], s));
        }
    }
    assert forall|i: int, j: int| 0 <= i < j < post.svcs().len()
        implies (#[trigger] post.svcs()[i]).pid != (#[trigger] post.svcs()[j]).pid by {
        if j < n {
            assert(pre.svcs()[i].pid != pre.svcs()[j].pid);
        } else {
            assert(!pre.has_pid(s.pid));
            assert(pre.svcs()[i].pid != s.pid);
        }
    }
    assert forall|i: int, j: int| 0 <= i < j < post.svcs().len()
        implies (#[trigger] post.svcs()[i]).name@ != (#[trigger] post.svcs()[j]).name@ by {
        if j < n {
            assert(pre.svcs()[i].name@ != pre.svcs()[j].name@);
        } else {
            assert(!pre.has_name(s.name@));
            assert(pre.svcs()[i].name@ != s.name@);
        }
    }
    assert forall|p: int| #[trigger] post.admitted().contains(p)
        implies post.reaped().contains(p) || exists|i: int|
            0 <= i < post.svcs().len() && (#[trigger] post.svcs()[i]).pid as int == p by {
        if p == s.pid as int {
            assert(post.svcs()[n].pid as int == p);
        } else if !post.reaped().contains(p) {
            assert(pre.admitted().contains(p));
            assert(!pre.reaped().contains(p));
            let i = choose|i: int| 0 <= i < pre.svcs().len()
                && (#[trigger] pre.svcs()[i]).pid as int == p;
            assert(post.svcs()[i].pid as int == p);
        }
    }
}

/// Removing one service keeps the registry invariant: all uniqueness
/// properties are pairwise and survive dropping an element, and the removed
/// pid moves from the live set to the reaped set.
proof fn lemma_remove_keeps_wf(pre: Registry, post: Registry, at: int, pid: i32)
    requires
        pre.wf(),
        0 <= at < pre.svcs().len(),
        pre.svcs()[at].pid == pid,
        post.svcs() == pre.svcs().remove(at),
        post.admitted() == pre.admitted(),
        post.reaped() == pre.reaped().insert(pid as int),
    ensures
        post.wf(),
        !post.has_pid(pid),
        !post.has_name(pre.svcs()[at].name@),
        forall|fd: i32| #[trigger] owns_fd(pre.svcs()[at], fd) ==> !post.has_fd(fd),
{
    pre.svcs().remove_ensures(at);
    let s = pre.svcs()[at];
    assert forall|k: int| 0 <= k < post.svcs().len()
        implies #[trigger] post.svcs()[k] == pre.svcs()[if k < at { k } else { k + 1 }] by {
    }
    assert forall|p: int| #[trigger] post.admitted().contains(p)
        implies post.reaped().contains(p) || exists|i: int|
            0 <= i < post.svcs().len() && (#[trigger] post.svcs()[i]).pid as int == p by {
        if !post.reaped().contains(p) {
            let i = choose|i: int| 0 <= i < pre.svcs().len()
                && (#[trigger] pre.svcs()[i]).pid as int == p;
            assert(i != at);
            if i < at {
                assert(post.svcs()[i].pid as int == p);
            } else {
                assert(post.svcs()[i - 1].pid as int == p);
            }
        }
    }
    assert forall|k: int| 0 <= k < post.svcs().len()
        implies (#[trigger] post.svcs()[k]).pid != pid by {
        let orig = if k < at { k } else { k + 1 };
        assert(pre.svcs()[orig].pid != pre.svcs()[at].pid);
    }
    assert forall|k: int| 0 <= k < post.svcs().len()
        implies (#[trigger] post.svcs()[k]).name@ != s.name@ by {
        let orig = if k < at { k } else { k + 1 };
        assert(pre.svcs()[orig].name@ != pre.svcs()[at].name@);
    }
    assert forall|fd: i32| #[trigger] owns_fd(s, fd) implies !post.has_fd(fd) by {
        assert forall|k: int| 0 <= k < post.svcs().len()
            implies !owns_fd(#[trigger] post.svcs()[k], fd) by {
            let orig = if k < at { k } else { k + 1 };
            assert(fds_disjoint(pre.svcs()[if orig < at { orig } else { at }],
                pre.svcs()[if orig < at { at } else { orig }]));
        }
    }
}

/// Law: under the invariant, the registry is empty exactly when every pid
/// that was ever admitted has been reaped — the run loop, whose guard is
/// emptiness, therefore stops exactly when every spawned child has exited and
/// been collected.
pub proof fn lemma_empty_iff_all_reaped(r: Registry)
    requires
        r.wf(),
    ensures
        (r.svcs().len() == 0) <==> (forall|p: int| #[trigger] r.admitted().contains(p)
            ==> r.reaped().contains(p)),
{
    if r.svcs().len() == 0 {
        assert forall|p: int| #[trigger] r.admitted().contains(p)
            implies r.reaped().contains(p) by {
        }
    }
    if forall|p: int| #[trigger] r.admitted().contains(p) ==> r.reaped().contains(p) {
        if r.svcs().len() > 0 {
            assert(r.admitted().contains(r.svcs()[0].pid as int));
            assert(false);
        }
    }
}

} // verus!
