use std::time::Duration;
use termpp::multiplexer::pane::{git_branch_from_output, PaneState, PaneStatus};

#[test]
fn new_pane_is_running() {
    let p = PaneState::new(0, std::path::PathBuf::from("/tmp"));
    assert_eq!(p.status, PaneStatus::Running);
}

#[test]
fn output_resets_waiting_to_running() {
    let mut p = PaneState::new(0, std::path::PathBuf::from("/tmp"));
    p.on_notify();
    assert_eq!(p.status, PaneStatus::Waiting);
    p.on_output();
    assert_eq!(p.status, PaneStatus::Running);
}

#[test]
fn exit_transitions_to_dead() {
    let mut p = PaneState::new(0, std::path::PathBuf::from("/tmp"));
    p.on_exit();
    assert_eq!(p.status, PaneStatus::Dead);
}

#[test]
fn is_idle_with_zero_threshold() {
    let mut p = PaneState::new(0, std::path::PathBuf::from("/tmp"));
    p.on_output();
    assert!(p.is_idle_for(Duration::from_secs(0)));
}

#[test]
fn waiting_pane_is_not_idle() {
    let mut p = PaneState::new(0, std::path::PathBuf::from("/tmp"));
    p.on_notify();
    assert!(!p.is_idle_for(Duration::from_secs(0)));
}

#[test]
fn dead_pane_is_not_idle() {
    let mut p = PaneState::new(3, std::path::PathBuf::from("/tmp"));
    p.on_exit();
    assert!(!p.is_idle_for(Duration::from_secs(0)));
    assert_eq!(p.id, 3);
}

#[test]
fn git_branch_is_trimmed_output() {
    assert_eq!(git_branch_from_output(true, b"main\n"), Some("main".to_string()));
    assert_eq!(git_branch_from_output(true, b"  feature/x \r\n"), Some("feature/x".to_string()));
}

#[test]
fn git_branch_none_on_failure_detached_or_empty() {
    assert_eq!(git_branch_from_output(false, b"main\n"), None);
    assert_eq!(git_branch_from_output(true, b"HEAD\n"), None);
    assert_eq!(git_branch_from_output(true, b"  \n"), None);
    assert_eq!(git_branch_from_output(true, b""), None);
}

#[test]
fn output_at_restarts_the_clock_at_that_reading() {
    let mut p = PaneState::new(0, std::path::PathBuf::from("/tmp"));
    p.on_notify();
    let at = std::time::Instant::now() + Duration::from_secs(60);
    p.on_output_at(at);
    assert_eq!(p.status, PaneStatus::Running);
    assert_eq!(p.last_output_at, at);
    assert!(!p.is_idle_for(Duration::from_secs(1)));
}
