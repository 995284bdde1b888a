use std::path::PathBuf;
use std::time::Duration;
use termpp::multiplexer::notification::NotificationDetector;
use termpp::multiplexer::pane::{PaneState, PaneStatus};
use termpp::terminal::grid::TermEvent;

fn make_pane() -> PaneState {
    PaneState::new(0, PathBuf::from("/tmp"))
}

#[test]
fn bel_event_triggers_notify() {
    let detector = NotificationDetector::new(Duration::from_secs(5));
    let mut pane = make_pane();
    detector.process_event(TermEvent::Bell, &mut pane);
    assert_eq!(pane.status, PaneStatus::Waiting);
}

#[test]
fn osc_notify_triggers_notify() {
    let detector = NotificationDetector::new(Duration::from_secs(5));
    let mut pane = make_pane();
    detector.process_event(TermEvent::OscNotify("test".into()), &mut pane);
    assert_eq!(pane.status, PaneStatus::Waiting);
}

#[test]
fn idle_timeout_triggers_notify() {
    let detector = NotificationDetector::new(Duration::from_secs(0));
    let mut pane = make_pane();
    pane.on_output();
    detector.check_idle(&mut pane);
    assert_eq!(pane.status, PaneStatus::Waiting);
}

#[test]
fn exited_event_transitions_to_dead() {
    let detector = NotificationDetector::new(Duration::from_secs(5));
    let mut pane = make_pane();
    detector.process_event(TermEvent::Exited, &mut pane);
    assert_eq!(pane.status, PaneStatus::Dead);
}

#[test]
fn title_and_cwd_events_leave_status_alone() {
    let detector = NotificationDetector::new(Duration::from_secs(5));
    let mut pane = make_pane();
    detector.process_event(TermEvent::TitleChange("vim".into()), &mut pane);
    detector.process_event(TermEvent::CwdChange("/home".into()), &mut pane);
    assert_eq!(pane.status, PaneStatus::Running);
}

#[test]
fn long_timeout_keeps_fresh_pane_running() {
    let detector = NotificationDetector::new(Duration::from_secs(3600));
    let mut pane = make_pane();
    detector.check_idle(&mut pane);
    assert_eq!(pane.status, PaneStatus::Running);
    assert_eq!(detector.timeout(), Duration::from_secs(3600));
}

#[test]
fn dead_pane_stays_dead_after_bell() {
    let detector = NotificationDetector::new(Duration::from_secs(0));
    let mut pane = make_pane();
    detector.process_event(TermEvent::Exited, &mut pane);
    detector.process_event(TermEvent::Bell, &mut pane);
    detector.check_idle(&mut pane);
    pane.on_output();
    assert_eq!(pane.status, PaneStatus::Dead);
}
