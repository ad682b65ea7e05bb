//! Registry indexing, removal, and the reaper's exit rule.

use kinesin::registry::ReapStep;
use kinesin::registry::Registry;
use kinesin::service::ChildExit;
use kinesin::service::Service;
use kinesin::service::argv_with_basename;
use kinesin::service::basename;
use kinesin::service::exit_decision;

fn svc(name: &str, pid: i32, stdout: Option<i32>, stderr: Option<i32>, must_be_up: bool) -> Service {
    Service::new(name.to_string(), pid, stdout, stderr, must_be_up)
}

#[test]
fn lookups_find_what_was_inserted() {
    let mut reg = Registry::new();
    assert!(reg.insert(svc("alpha", 100, Some(5), Some(7), true)));
    assert!(reg.insert(svc("beta", 101, Some(9), None, false)));
    assert_eq!(reg.len(), 2);
    assert!(!reg.is_empty());
    assert_eq!(reg.get_by_name(&"alpha".to_string()).unwrap().pid, 100);
    assert_eq!(reg.get_by_fd(7).unwrap().pid, 100);
    assert_eq!(reg.get_by_fd(9).unwrap().pid, 101);
    assert!(reg.get_by_fd(8).is_none());
    assert!(reg.get_by_name(&"gamma".to_string()).is_none());
}

#[test]
fn clashing_services_are_refused() {
    let mut reg = Registry::new();
    assert!(reg.insert(svc("alpha", 100, Some(5), Some(7), true)));
    // duplicate name
    assert!(!reg.insert(svc("alpha", 200, Some(11), Some(12), true)));
    // duplicate pid
    assert!(!reg.insert(svc("beta", 100, Some(11), Some(12), true)));
    // descriptor already owned by alpha
    assert!(!reg.insert(svc("beta", 200, Some(7), Some(12), true)));
    // the two descriptors of one service must differ
    assert!(!reg.insert(svc("beta", 200, Some(11), Some(11), true)));
    assert_eq!(reg.len(), 1);
}

#[test]
fn remove_clears_every_index_entry() {
    let mut reg = Registry::new();
    assert!(reg.insert(svc("alpha", 100, Some(5), Some(7), true)));
    assert!(reg.insert(svc("beta", 101, Some(9), Some(10), false)));
    let gone = reg.remove(100).unwrap();
    assert_eq!(gone.name, "alpha");
    assert!(reg.get_by_fd(5).is_none());
    assert!(reg.get_by_fd(7).is_none());
    assert!(reg.get_by_name(&"alpha".to_string()).is_none());
    // the sibling is untouched
    assert_eq!(reg.get_by_fd(9).unwrap().pid, 101);
    assert!(reg.remove(100).is_none());
}

#[test]
fn exit_decision_matches_the_termination_protocol() {
    assert_eq!(exit_decision(true, &ChildExit::Exited(0)), None);
    assert_eq!(exit_decision(true, &ChildExit::Exited(1)), Some(1));
    assert_eq!(exit_decision(true, &ChildExit::Exited(42)), Some(42));
    assert_eq!(exit_decision(false, &ChildExit::Exited(1)), None);
    assert_eq!(exit_decision(false, &ChildExit::Exited(0)), None);
    assert_eq!(exit_decision(true, &ChildExit::Signaled), Some(-1));
    assert_eq!(exit_decision(false, &ChildExit::Signaled), None);
}

#[test]
fn critical_clean_exit_lets_the_run_go_on() {
    // one service `true` with must_be_up: it exits zero and the supervisor
    // carries on to a clean end
    let mut reg = Registry::new();
    assert!(reg.insert(svc("true", 500, None, None, true)));
    let step = reg.handle_exit(500, ChildExit::Exited(0));
    assert!(matches!(step, ReapStep::Reaped(_)));
    assert!(reg.is_empty());
}

#[test]
fn critical_nonzero_exit_takes_the_supervisor_down_with_its_status() {
    // one service `false` with must_be_up: the supervisor terminates with the
    // child's status
    let mut reg = Registry::new();
    assert!(reg.insert(svc("false", 501, None, None, true)));
    let step = reg.handle_exit(501, ChildExit::Exited(1));
    assert!(matches!(step, ReapStep::Critical(1)));
}

#[test]
fn non_critical_failure_is_just_reaped() {
    // one failing service without must_be_up beside a quiet sibling: both are
    // reaped and the supervisor ends cleanly
    let mut reg = Registry::new();
    assert!(reg.insert(svc("false", 502, None, None, false)));
    assert!(reg.insert(svc("sleep", 503, None, None, false)));
    let first = reg.handle_exit(502, ChildExit::Exited(1));
    assert!(matches!(first, ReapStep::Reaped(_)));
    let second = reg.handle_exit(503, ChildExit::Exited(0));
    assert!(matches!(second, ReapStep::Reaped(_)));
    assert!(reg.is_empty());
}

#[test]
fn critical_child_killed_by_signal_means_minus_one() {
    let mut reg = Registry::new();
    assert!(reg.insert(svc("daemon", 504, None, None, true)));
    let step = reg.handle_exit(504, ChildExit::Signaled);
    assert!(matches!(step, ReapStep::Critical(-1)));
}

#[test]
fn exit_of_an_unknown_child_changes_nothing() {
    let mut reg = Registry::new();
    assert!(reg.insert(svc("alpha", 505, Some(3), None, true)));
    let step = reg.handle_exit(9999, ChildExit::Exited(1));
    assert!(matches!(step, ReapStep::Stranger));
    assert_eq!(reg.len(), 1);
}

#[test]
fn reaping_with_no_children_ends_the_pass() {
    // this test process has no exited children lying around, so a reap pass
    // over an empty registry reports that and changes nothing
    let mut reg = Registry::new();
    let step = reg.reap_step();
    assert!(matches!(step, ReapStep::NoneReady | ReapStep::NoChildren));
    assert!(reg.is_empty());
}

#[test]
fn argv_zero_becomes_the_program_basename() {
    assert_eq!(basename("/bin/echo"), "echo");
    assert_eq!(basename("echo"), "echo");
    assert_eq!(basename("/usr/local/bin/x"), "x");
    assert_eq!(basename(""), "");
    assert_eq!(basename("/bin/"), "");
    let declared = vec!["/bin/echo".to_string(), "hello".to_string()];
    let argv = argv_with_basename(&"/bin/echo".to_string(), &declared);
    assert_eq!(argv, vec!["echo".to_string(), "hello".to_string()]);
}
