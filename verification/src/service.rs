//! One supervised child process: its identifier, captured stream endpoints
//! and criticality flag, together with the exit-decision rule the reaper
//! applies when the child leaves.

use vstd::prelude::*;

verus! {

/// A single spawned child process as the registry sees it. Spawning itself
/// (pipes, fork, exec) happens outside the core, which receives the resulting
/// plain values.
pub struct Service {
    /// Unique identifier of the service.
    pub name: String,
    /// Process identifier handed out by the operating system at spawn.
    pub pid: i32,
    /// Read end of the captured standard-output pipe, if the stream is
    /// watched; the descriptor is non-blocking and owned by the supervisor.
    pub stdout: Option<i32>,
    /// Read end of the captured standard-error pipe, if the stream is
    /// watched.
    pub stderr: Option<i32>,
    /// When true, abnormal exit of this service terminates the supervisor.
    pub must_be_up: bool,
}

impl Service {
    /// Assemble a service from the plain values produced at spawn time.
    pub fn new(name: String, pid: i32, stdout: Option<i32>, stderr: Option<i32>, must_be_up: bool)
        -> (s: Service)
        ensures
            s.name == name,
            s.pid == pid,
            s.stdout == stdout,
            s.stderr == stderr,
            s.must_be_up == must_be_up,
    {
        Service { name, pid, stdout, stderr, must_be_up }
    }
}

/// Whether `fd` is one of the captured stream descriptors of `s`.
pub open spec fn owns_fd(s: Service, fd: i32) -> bool {
    s.stdout == Some(fd) || s.stderr == Some(fd)
}

/// No captured descriptor of `a` is also a captured descriptor of `b`.
pub open spec fn fds_disjoint(a: Service, b: Service) -> bool {
    &&& (a.stdout is Some ==> a.stdout != b.stdout && a.stdout != b.stderr)
    &&& (a.stderr is Some ==> a.stderr != b.stdout && a.stderr != b.stderr)
}

/// The two captured descriptors of one service are distinct.
pub open spec fn fds_distinct(s: Service) -> bool {
    s.stdout is Some && s.stderr is Some ==> s.stdout != s.stderr
}

/// Whether `fd` is one of the captured stream descriptors of `s`, computed.
pub fn service_owns_fd(s: &Service, fd: i32) -> (r: bool)
    ensures
        r == owns_fd(*s, fd),
{
    let out_match = match s.stdout {
        Some(x) => x == fd,
        None => false,
    };
    let err_match = match s.stderr {
        Some(x) => x == fd,
        None => false,
    };
    out_match || err_match
}

/// The basename of a path: the suffix after the last separator; empty when
/// the path is empty or ends with a separator.
pub open spec fn basename_of(p: Seq<char>) -> Seq<char>
    decreases p.len(),
{
    if p.len() == 0 {
        Seq::empty()
    } else if p[p.len() - 1] == '/' {
        Seq::empty()
    } else {
        basename_of(p.take(p.len() - 1)).push(p[p.len() - 1])
    }
}

/// A suffix with no separator whose left neighbour is one (or the whole
/// path) is the basename.
proof fn lemma_basename_suffix(p: Seq<char>, cut: int)
    requires
        0 <= cut <= p.len(),
        forall|k: int| cut <= k < p.len() ==> p[k] != '/',
        cut > 0 ==> p[cut - 1] == '/',
    ensures
        basename_of(p) == p.subrange(cut, p.len() as int),
    decreases p.len(),
{
    if p.len() == 0 {
        assert(basename_of(p) =~= p.subrange(cut, p.len() as int));
    } else if cut == p.len() {
        assert(p[p.len() - 1] == '/');
        assert(basename_of(p) =~= p.subrange(cut, p.len() as int));
    } else {
        assert(p[p.len() - 1] != '/');
        let q = p.take(p.len() - 1);
        lemma_basename_suffix(q, cut);
        assert(basename_of(q).push(p[p.len() - 1]) =~= p.subrange(cut, p.len() as int));
    }
}

/// Compute the basename of a resolved program path.
pub fn basename(path: &str) -> (r: String)
    ensures
        r@ == basename_of(path@),
{
    let n = path.unicode_len();
    let mut cut: usize = 0;
    let mut i: usize = 0;
    while i < n
        invariant
            0 <= cut <= i <= n,
            n == path@.len(),
            forall|k: int| cut <= k < i ==> path@[k] != '/',
            cut > 0 ==> path@[cut - 1] == '/',
        decreases n - i,
    {
        if path.get_char(i) == '/' {
            cut = i + 1;
        }
        i = i + 1;
    }
    proof {
        lemma_basename_suffix(path@, cut as int);
    }
    let base = path.substring_char(cut, n);
    String::from_str(base)
}

/// Build a child's argv from its declared one and the resolved program
/// path: the path's basename is substituted as the zeroth argument, the
/// rest carries over unchanged.
pub fn argv_with_basename(program_path: &String, declared: &Vec<String>) -> (r: Vec<String>)
    requires
        declared@.len() > 0,
    ensures
        r@.len() == declared@.len(),
        r@[0]@ == basename_of(program_path@),
        forall|i: int| 1 <= i < declared@.len() ==> #[trigger] r@[i] == declared@[i],
{
    let mut out: Vec<String> = Vec::new();
    out.push(basename(program_path.as_str()));
    let mut i: usize = 1;
    while i < declared.len()
        invariant
            1 <= i <= declared@.len(),
            out@.len() == i,
            out@[0]@ == basename_of(program_path@),
            forall|k: int| 1 <= k < i ==> #[trigger] out@[k] == declared@[k],
        decreases declared@.len() - i,
    {
        out.push(declared[i].clone());
        i = i + 1;
    }
    out
}

/// How a reaped child left: with an exit status, or killed by a signal.
#[derive(Debug, Clone, Copy, PartialEq, Eq, Structural)]
pub enum ChildExit {
    /// The child exited with this status.
    Exited(i32),
    /// The child was killed by a signal.
    Signaled,
}

/// The supervisor's verdict on a reaped child: `None` to carry on, or
/// `Some(code)` when the supervisor itself must terminate with `code`.
/// A critical (`must_be_up`) service that exits nonzero takes the supervisor
/// down with its own status; one killed by a signal takes it down with -1.
pub open spec fn spec_exit_decision(must_be_up: bool, e: ChildExit) -> Option<i32> {
    match e {
        ChildExit::Exited(status) => if must_be_up && status != 0 {
            Some(status)
        } else {
            None
        },
        ChildExit::Signaled => if must_be_up {
            Some(-1i32)
        } else {
            None
        },
    }
}

/// Apply the exit-decision rule to one reaped child.
pub fn exit_decision(must_be_up: bool, e: &ChildExit) -> (r: Option<i32>)
    ensures
        r == spec_exit_decision(must_be_up, *e),
{
    match e {
        ChildExit::Exited(status) => if must_be_up && *status != 0 {
            Some(*status)
        } else {
            None
        },
        ChildExit::Signaled => if must_be_up {
            Some(-1)
        } else {
            None
        },
    }
}

} // verus!
