use std::collections::HashMap;
use termpp::multiplexer::layout::Layout;
use termpp::multiplexer::workspace::{Tab, Workspace};

fn make_tab(id: usize) -> Tab<()> {
    Tab {
        id,
        name: format!("tab-{id}"),
        layout: Layout::new(0),
        panes: HashMap::new(),
        emulators: HashMap::new(),
        active_pane: 0,
        next_pane_id: 1,
        last_output_counts: HashMap::new(),
    }
}

#[test]
fn workspace_active_tab_idx_finds_middle_tab() {
    let ws = Workspace {
        id: 0,
        name: "test".into(),
        tabs: vec![make_tab(0), make_tab(5), make_tab(10)],
        active_tab: 5,
        collapsed: false,
    };
    assert_eq!(ws.active_tab_idx(), 1);
}

#[test]
fn workspace_active_tab_idx_defaults_to_zero_on_miss() {
    let ws = Workspace {
        id: 0,
        name: "test".into(),
        tabs: vec![make_tab(0)],
        active_tab: 99,
        collapsed: false,
    };
    assert_eq!(ws.active_tab_idx(), 0);
}

#[test]
fn tab_id_list_in_order() {
    let ws = Workspace {
        id: 3,
        name: "w".into(),
        tabs: vec![make_tab(7), make_tab(2)],
        active_tab: 2,
        collapsed: true,
    };
    assert_eq!(ws.tab_id_list(), vec![7, 2]);
    assert_eq!(ws.active_tab_idx(), 1);
}
