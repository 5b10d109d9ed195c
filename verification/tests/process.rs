//! When the agent's process is killed.

use lapce_agent::process::{process_group, AgentProcess, Attached};

#[test]
fn kill_terminates_the_attached_process() {
    let mut process = AgentProcess::new();
    assert_eq!(process.attach(4711), Attached::Guarded);
    assert_eq!(process.kill(), Some(4711));
    assert!(process.was_killed());
}

#[test]
fn a_process_attached_after_kill_dies_at_once() {
    let mut process = AgentProcess::new();
    assert_eq!(process.kill(), None);
    assert_eq!(process.attach(4711), Attached::KillNow(4711));
    assert_eq!(process.release(), None);
}

#[test]
fn release_kills_once_and_forgets_the_pid() {
    let mut process = AgentProcess::new();
    assert_eq!(process.attach(4711), Attached::Guarded);
    assert_eq!(process.release(), Some(4711));
    assert_eq!(process.release(), None);
    assert!(!process.was_killed());
    assert_eq!(process.kill(), None);
}

#[test]
fn each_process_is_killed_once_in_the_order_attached() {
    let mut process = AgentProcess::new();
    let mut killed = Vec::new();
    assert_eq!(process.attach(1), Attached::Guarded);
    killed.extend(process.release());
    assert_eq!(process.attach(2), Attached::Guarded);
    killed.extend(process.kill());
    if let Attached::KillNow(pid) = process.attach(3) {
        killed.push(pid);
    }
    killed.extend(process.release());
    assert_eq!(killed, vec![1, 2, 3]);
}

#[test]
fn a_pid_that_is_no_group_is_not_signalled() {
    assert_eq!(process_group(1), Some(1));
    assert_eq!(process_group(i32::MAX as u32), Some(i32::MAX));
    assert_eq!(process_group(i32::MAX as u32 + 1), None);
    assert_eq!(process_group(u32::MAX), None);
}
