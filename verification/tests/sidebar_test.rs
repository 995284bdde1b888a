use termpp::ui::sidebar::{sidebar_rows, SidebarRow, TabEntry, WorkspaceEntry};

fn tab(id: usize, name: &str) -> TabEntry {
    TabEntry { id, name: name.to_string(), git_branch: None, terminal_title: None, has_waiting: false }
}

fn entries() -> Vec<WorkspaceEntry> {
    vec![
        WorkspaceEntry {
            id: 0,
            name: "default".to_string(),
            tabs: vec![tab(0, "main"), tab(1, "dev")],
            active_tab_id: 1,
            collapsed: false,
        },
        WorkspaceEntry {
            id: 1,
            name: "work".to_string(),
            tabs: vec![tab(2, "main")],
            active_tab_id: 2,
            collapsed: true,
        },
    ]
}

#[test]
fn rows_list_workspaces_and_unfolded_tabs() {
    let rows = sidebar_rows(&entries(), 0, None, None);
    assert_eq!(
        rows,
        vec![
            SidebarRow::Workspace { index: 0, active: true, renaming: false },
            SidebarRow::Tab { workspace: 0, index: 0, active: false, renaming: false },
            SidebarRow::Tab { workspace: 0, index: 1, active: true, renaming: false },
            SidebarRow::Workspace { index: 1, active: false, renaming: false },
        ]
    );
}

#[test]
fn active_tab_of_inactive_workspace_is_not_highlighted() {
    let mut e = entries();
    e[1].collapsed = false;
    let rows = sidebar_rows(&e, 0, Some(2), Some(1));
    assert_eq!(rows[3], SidebarRow::Workspace { index: 1, active: false, renaming: true });
    assert_eq!(rows[4], SidebarRow::Tab { workspace: 1, index: 0, active: false, renaming: true });
}
