use std::path::PathBuf;
use std::time::Duration;
use termpp::multiplexer::layout::SplitDirection;
use termpp::multiplexer::notification::NotificationDetector;
use termpp::multiplexer::pane::PaneStatus;
use termpp::multiplexer::session::{
    committed_string, cycle_next_id, cycle_prev_id, next_index, order_exits, prev_index, Session,
};
use termpp::terminal::grid::TermEvent;

fn session() -> Session<u32> {
    Session::new(PathBuf::from("/tmp"), Some("main".to_string()), Some(7))
}

#[test]
fn focus_prev_wraps_from_first_to_last() {
    // Pure logic test for the wrapping formula — no app state needed
    let len = 3;
    let pos = 0;
    let prev = prev_index(pos, len);
    assert_eq!(prev, 2, "wrapping from index 0 in a 3-pane layout should give index 2");
}

#[test]
fn focus_prev_middle_position() {
    let len = 3;
    let pos = 1;
    let prev = prev_index(pos, len);
    assert_eq!(prev, 0);
}

#[test]
fn focus_prev_single_pane_wraps_to_self() {
    let len = 1;
    let pos = 0;
    let prev = prev_index(pos, len);
    assert_eq!(prev, 0);
}

#[test]
fn focus_tab_next_wraps() {
    let tab_ids = vec![10usize, 20, 30];
    let current = 30usize;
    let next = cycle_next_id(&tab_ids, current);
    assert_eq!(next, 10);
}

#[test]
fn focus_tab_prev_wraps() {
    let tab_ids = vec![10usize, 20, 30];
    let current = 10usize;
    let prev = cycle_prev_id(&tab_ids, current);
    assert_eq!(prev, 30);
}

#[test]
fn focus_workspace_next_wraps() {
    let ws_ids = vec![0usize, 1, 2];
    let current = 2usize;
    let next = cycle_next_id(&ws_ids, current);
    assert_eq!(next, 0);
}

#[test]
fn focus_workspace_prev_wraps() {
    let ws_ids = vec![0usize, 1, 2];
    let current = 0usize;
    let prev = cycle_prev_id(&ws_ids, current);
    assert_eq!(prev, 2);
}

#[test]
fn cycle_of_unknown_id_keeps_it() {
    assert_eq!(cycle_next_id(&vec![1, 2], 9), 9);
    assert_eq!(cycle_prev_id(&vec![1, 2], 9), 9);
    assert_eq!(next_index(2, 3), 0);
    assert_eq!(next_index(0, 3), 1);
}

#[test]
fn initial_session_has_default_workspace_and_main_tab() {
    let s = session();
    assert_eq!(s.workspaces().len(), 1);
    assert_eq!(s.workspaces()[0].name, "default");
    assert_eq!(s.active_tab().name, "main");
    assert_eq!(s.active_tab().layout.pane_ids(), vec![0]);
    assert_eq!(s.active_tab().panes[&0].git_branch.as_deref(), Some("main"));
    assert_eq!(s.active_tab().emulators.get(&0), Some(&7));
    assert_eq!(s.next_tab_id(), 1);
    assert_eq!(s.next_workspace_id(), 1);
    assert_eq!(s.title(), "terminal++ — default — main");
}

#[test]
fn split_focus_and_close_cycle() {
    let mut s = session();
    assert_eq!(s.split_active(SplitDirection::Vertical, None), Some((0, 1)));
    assert_eq!(s.active_tab().active_pane, 1);
    assert_eq!(s.active_tab().layout.pane_ids(), vec![0, 1]);
    assert!(s.attach_emulator(0, 1, 8));
    s.focus_next();
    assert_eq!(s.active_tab().active_pane, 0);
    s.focus_next();
    assert_eq!(s.active_tab().active_pane, 1);
    s.focus_prev();
    assert_eq!(s.active_tab().active_pane, 0);
    assert!(!s.close_active_pane());
    assert_eq!(s.active_tab().layout.pane_ids(), vec![1]);
    assert_eq!(s.active_tab().active_pane, 1);
    assert!(!s.active_tab().panes.contains_key(&0));
    assert!(!s.active_tab().emulators.contains_key(&0));
    assert_eq!(s.active_tab().emulators.get(&1), Some(&8));
}

#[test]
fn closing_last_pane_asks_to_quit_and_changes_nothing() {
    let mut s = session();
    assert!(s.close_active_pane());
    assert_eq!(s.workspaces().len(), 1);
    assert_eq!(s.active_tab().layout.pane_ids(), vec![0]);
}

#[test]
fn split_refused_at_max_depth() {
    let mut s = session();
    for _ in 0..4 {
        assert!(s.split_active(SplitDirection::Horizontal, None).is_some());
    }
    assert!(s.split_active(SplitDirection::Horizontal, None).is_none());
    assert_eq!(s.active_tab().layout.pane_ids().len(), 5);
}

#[test]
fn new_tab_joins_workspace_and_closing_it_moves_focus() {
    let mut s = session();
    let cwd = s.new_tab_cwd(0).unwrap();
    assert_eq!(cwd, PathBuf::from("/tmp"));
    let id = s.new_tab_in(0, cwd, None, None);
    assert_eq!(id, 1);
    assert_eq!(s.active_tab().name, "tab-1");
    assert_eq!(s.workspaces()[0].tabs.len(), 2);
    s.focus_tab_next();
    assert_eq!(s.active_tab().id, 0);
    s.focus_tab_prev();
    assert_eq!(s.active_tab().id, 1);
    assert!(!s.close_tab(1));
    assert_eq!(s.workspaces()[0].tabs.len(), 1);
    assert_eq!(s.active_tab().id, 0);
    assert!(s.close_tab(0));
    assert!(!s.close_tab(42));
}

#[test]
fn new_tab_in_unknown_workspace_only_uses_an_id() {
    let mut s = session();
    let id = s.new_tab_in(9, PathBuf::from("/"), None, None);
    assert_eq!(id, 1);
    assert_eq!(s.next_tab_id(), 2);
    assert_eq!(s.workspaces()[0].tabs.len(), 1);
}

#[test]
fn new_workspace_becomes_active_and_cycles() {
    let mut s = session();
    let (ws, tab) = s.new_workspace(PathBuf::from("/"), None, None);
    assert_eq!((ws, tab), (1, 1));
    assert_eq!(s.active_workspace(), 1);
    assert_eq!(s.workspaces()[1].name, "workspace-1");
    assert_eq!(s.active_tab().name, "main");
    assert_eq!(s.title(), "terminal++ — workspace-1 — main");
    s.focus_workspace_next();
    assert_eq!(s.active_workspace(), 0);
    s.focus_workspace_prev();
    assert_eq!(s.active_workspace(), 1);
    assert!(!s.close_tab(1));
    assert_eq!(s.workspaces().len(), 1);
    assert_eq!(s.active_workspace(), 0);
}

#[test]
fn select_tab_switches_workspace() {
    let mut s = session();
    s.new_workspace(PathBuf::from("/"), None, None);
    s.select_tab(0);
    assert_eq!(s.active_workspace(), 0);
    assert_eq!(s.active_tab().id, 0);
    s.select_tab(77);
    assert_eq!(s.active_workspace(), 0);
}

#[test]
fn rename_tab_trims_and_defaults() {
    let mut s = session();
    s.start_rename_tab(0);
    assert_eq!(s.renaming_tab(), &Some((0, "main".to_string())));
    s.rename_changed("  build  ".to_string());
    s.commit_rename();
    assert_eq!(s.active_tab().name, "build");
    assert!(s.renaming_tab().is_none());
    s.start_rename_tab(0);
    s.rename_changed("   ".to_string());
    s.commit_rename();
    assert_eq!(s.active_tab().name, "tab");
    s.start_rename_tab(0);
    s.cancel_rename();
    assert_eq!(s.active_tab().name, "tab");
}

#[test]
fn rename_workspace_trims_and_defaults() {
    let mut s = session();
    s.start_rename_workspace(0);
    assert_eq!(s.renaming_workspace(), &Some((0, "default".to_string())));
    s.rename_workspace_changed(" dev ".to_string());
    s.commit_rename_workspace();
    assert_eq!(s.workspaces()[0].name, "dev");
    s.start_rename_workspace(0);
    s.rename_workspace_changed("".to_string());
    s.commit_rename_workspace();
    assert_eq!(s.workspaces()[0].name, "workspace");
    s.start_rename_workspace(5);
    assert_eq!(s.renaming_workspace(), &Some((5, String::new())));
    s.cancel_rename_workspace();
    assert!(s.renaming_workspace().is_none());
}

#[test]
fn help_toggle_cancels_renames() {
    let mut s = session();
    s.start_rename_tab(0);
    s.start_rename_workspace(0);
    s.toggle_help();
    assert!(s.show_help());
    assert!(s.renaming_tab().is_none());
    assert!(s.renaming_workspace().is_none());
    s.toggle_help();
    assert!(!s.show_help());
}

#[test]
fn toggle_workspace_twice_restores() {
    let mut s = session();
    s.toggle_workspace(0);
    assert!(s.workspaces()[0].collapsed);
    s.toggle_workspace(0);
    assert!(!s.workspaces()[0].collapsed);
}

#[test]
fn pane_events_update_state_and_title() {
    let mut s = session();
    s.apply_pane_event(0, 0, 0, TermEvent::TitleChange("vim".into()));
    assert_eq!(s.title(), "terminal++ — default — main — vim");
    s.apply_pane_event(0, 0, 0, TermEvent::CwdChange("/home".into()));
    assert_eq!(s.active_tab().panes[&0].cwd, PathBuf::from("/home"));
    s.apply_pane_event(0, 0, 0, TermEvent::Bell);
    assert_eq!(s.active_tab().panes[&0].status, PaneStatus::Waiting);
    let entries = s.sidebar_entries();
    assert!(entries[0].tabs[0].has_waiting);
    assert_eq!(entries[0].tabs[0].terminal_title.as_deref(), Some("vim"));
    s.record_output(0, 0, 0, 5);
    assert_eq!(s.active_tab().panes[&0].status, PaneStatus::Running);
    assert_eq!(s.active_tab().last_output_counts.get(&0), Some(&5));
    assert!(s.mark_pane_exited(0, 0, 0));
    assert!(!s.mark_pane_exited(0, 0, 0));
    assert_eq!(s.active_tab().panes[&0].status, PaneStatus::Dead);
}

#[test]
fn unchanged_output_count_changes_nothing() {
    let mut s = session();
    s.apply_pane_event(0, 0, 0, TermEvent::Bell);
    s.record_output(0, 0, 0, 0);
    assert_eq!(s.active_tab().panes[&0].status, PaneStatus::Waiting);
}

#[test]
fn idle_check_makes_running_panes_wait() {
    let mut s = session();
    s.check_idle_all(&NotificationDetector::new(Duration::from_secs(0)));
    assert_eq!(s.active_tab().panes[&0].status, PaneStatus::Waiting);
    let mut s = session();
    s.check_idle_all(&NotificationDetector::new(Duration::from_secs(3600)));
    assert_eq!(s.active_tab().panes[&0].status, PaneStatus::Running);
}

#[test]
fn exited_pane_closes_in_first_tab_holding_it() {
    let mut s = session();
    s.split_active(SplitDirection::Vertical, None);
    assert!(!s.close_exited_pane(0, 1));
    assert_eq!(s.active_tab().layout.pane_ids(), vec![0]);
    assert!(s.close_exited_pane(0, 0));
    assert!(!s.close_exited_pane(0, 42));
}

#[test]
fn exits_are_closed_in_descending_order() {
    let order = order_exits(vec![(0, 1, 2), (1, 0, 0), (0, 1, 5), (0, 0, 9)]);
    assert_eq!(order, vec![(1, 0, 0), (0, 1, 5), (0, 1, 2), (0, 0, 9)]);
}

#[test]
fn git_branch_goes_to_first_tab_with_pane() {
    let mut s = session();
    s.new_tab_in(0, PathBuf::from("/"), None, None);
    s.set_git_branch(0, Some("dev".to_string()));
    assert_eq!(s.workspaces()[0].tabs[0].panes[&0].git_branch.as_deref(), Some("dev"));
    assert_eq!(s.workspaces()[0].tabs[1].panes[&0].git_branch, None);
}

#[test]
fn selection_starts_drags_and_ends() {
    let mut s = session();
    s.split_active(SplitDirection::Vertical, None);
    s.begin_selection(0, Some((2, 1)));
    assert_eq!(s.selecting_pane(), Some(0));
    assert_eq!(s.active_tab().active_pane, 0);
    s.drag_selection((5, 3));
    assert_eq!(s.end_selection(), Some(((2, 1), (5, 3))));
    assert_eq!(s.selecting_pane(), None);
    s.begin_selection(1, None);
    assert_eq!(s.active_tab().panes[&0].selection, None);
    assert_eq!(s.end_selection(), None);
}

#[test]
fn split_ratio_of_active_tab() {
    let mut s = session();
    s.split_active(SplitDirection::Vertical, None);
    assert_eq!(s.active_ratio(0), Some(500));
    s.set_active_ratio(0, 1000);
    assert_eq!(s.active_ratio(0), Some(900));
}

#[test]
fn committed_names() {
    assert_eq!(committed_string(&" x ".to_string(), "tab"), "x");
    assert_eq!(committed_string(&"\t\n".to_string(), "tab"), "tab");
}

#[test]
fn split_then_close_restores_tab() {
    let mut s = session();
    s.split_active(SplitDirection::Vertical, None);
    s.focus_pane(0);
    let before_ids = s.active_tab().layout.pane_ids();
    let before_panes: Vec<usize> = {
        let mut v: Vec<usize> = s.active_tab().panes.keys().copied().collect();
        v.sort();
        v
    };
    s.split_active(SplitDirection::Horizontal, None);
    assert_eq!(s.active_tab().active_pane, 2);
    assert!(!s.close_active_pane());
    assert_eq!(s.active_tab().layout.pane_ids(), before_ids);
    let mut after: Vec<usize> = s.active_tab().panes.keys().copied().collect();
    after.sort();
    assert_eq!(after, before_panes);
    assert_eq!(s.active_tab().next_pane_id, 3);
}

#[test]
fn tab_names_count_up() {
    let mut s = session();
    for _ in 0..11 {
        s.new_tab_in(0, PathBuf::from("/"), None, None);
    }
    assert_eq!(s.active_tab().name, "tab-11");
    assert_eq!(s.workspaces()[0].tabs.len(), 12);
}

#[test]
fn committed_names_lose_unicode_white_space() {
    assert_eq!(committed_string(&"\u{3000}x\u{a0}".to_string(), "tab"), "x");
    assert_eq!(committed_string(&"\u{2003}\u{85}".to_string(), "tab"), "tab");
}

#[test]
fn split_dir_is_focused_pane_dir_or_empty() {
    let mut s = session();
    assert_eq!(s.split_cwd(), PathBuf::from("/tmp"));
    s.focus_pane(42);
    assert_eq!(s.split_cwd(), PathBuf::new());
}
