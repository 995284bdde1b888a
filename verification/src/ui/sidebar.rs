use vstd::prelude::*;

verus! {

/// What the sidebar shows of one tab.
pub struct TabEntry {
    pub id: usize,
    pub name: String,
    pub git_branch: Option<String>,
    pub terminal_title: Option<String>,
    pub has_waiting: bool,
}

/// What the sidebar shows of one workspace and its tabs.
pub struct WorkspaceEntry {
    pub id: usize,
    pub name: String,
    pub tabs: Vec<TabEntry>,
    pub active_tab_id: usize,
    pub collapsed: bool,
}

/// One line of the sidebar: a workspace, or one of its tabs, with whether
/// it is highlighted as active and whether it is being renamed.
#[derive(Debug, Clone, Copy, PartialEq, Eq, Structural)]
pub enum SidebarRow {
    Workspace { index: usize, active: bool, renaming: bool },
    Tab { workspace: usize, index: usize, active: bool, renaming: bool },
}

/// Whether `rename` is under way for `id`.
pub open spec fn renames(rename: Option<usize>, id: usize) -> bool {
    rename == Some(id)
}

/// The lines of workspace `i`: its own line, then, unless it is folded, one
/// per tab. A tab is highlighted only when its workspace is the active one
/// and it is that workspace's active tab.
pub open spec fn workspace_rows(
    entries: Seq<WorkspaceEntry>,
    i: int,
    active_ws: usize,
    renaming_tab: Option<usize>,
    renaming_ws: Option<usize>,
) -> Seq<SidebarRow> {
    let e = entries[i];
    let head = seq![
        SidebarRow::Workspace {
            index: i as usize,
            active: e.id == active_ws,
            renaming: renames(renaming_ws, e.id),
        },
    ];
    if e.collapsed {
        head
    } else {
        head + Seq::new(
            e.tabs@.len(),
            |j: int|
                SidebarRow::Tab {
                    workspace: i as usize,
                    index: j as usize,
                    active: e.id == active_ws && e.active_tab_id == e.tabs@[j].id,
                    renaming: renames(renaming_tab, e.tabs@[j].id),
                },
        )
    }
}

/// The lines of the first `k` workspaces.
pub open spec fn rows_upto(
    entries: Seq<WorkspaceEntry>,
    k: int,
    active_ws: usize,
    renaming_tab: Option<usize>,
    renaming_ws: Option<usize>,
) -> Seq<SidebarRow>
    decreases k,
{
    if k <= 0 {
        Seq::empty()
    } else {
        rows_upto(entries, k - 1, active_ws, renaming_tab, renaming_ws) + workspace_rows(
            entries,
            k - 1,
            active_ws,
            renaming_tab,
            renaming_ws,
        )
    }
}

/// The lines of the sidebar, top to bottom, for the workspaces `entries`,
/// the active workspace `active_ws` and the renames under way.
pub fn sidebar_rows(
    entries: &Vec<WorkspaceEntry>,
    active_ws: usize,
    renaming_tab: Option<usize>,
    renaming_ws: Option<usize>,
) -> (rows: Vec<SidebarRow>)
    ensures
        rows@ == rows_upto(entries@, entries@.len() as int, active_ws, renaming_tab, renaming_ws),
{
    let mut rows: Vec<SidebarRow> = Vec::new();
    let mut i: usize = 0;
    while i < entries.len()
        invariant
            i <= entries@.len(),
            rows@ == rows_upto(entries@, i as int, active_ws, renaming_tab, renaming_ws),
        decreases entries@.len() - i,
    {
        let e = &entries[i];
        let ghost before = rows@;
        let ws_renaming = match renaming_ws {
            Some(id) => id == e.id,
            None => false,
        };
        rows.push(SidebarRow::Workspace { index: i, active: e.id == active_ws, renaming: ws_renaming });
        if !e.collapsed {
            let mut j: usize = 0;
            while j < e.tabs.len()
                invariant
                    i < entries@.len(),
                    *e == entries@[i as int],
                    !e.collapsed,
                    j <= e.tabs@.len(),
                    rows@ == before + workspace_rows(
                        entries@,
                        i as int,
                        active_ws,
                        renaming_tab,
                        renaming_ws,
                    ).take(j + 1),
                decreases e.tabs@.len() - j,
            {
                let t = &e.tabs[j];
                let tab_renaming = match renaming_tab {
                    Some(id) => id == t.id,
                    None => false,
                };
                rows.push(
                    SidebarRow::Tab {
                        workspace: i,
                        index: j,
                        active: e.id == active_ws && e.active_tab_id == t.id,
                        renaming: tab_renaming,
                    },
                );
                j = j + 1;
                assert(rows@ =~= before + workspace_rows(
                    entries@,
                    i as int,
                    active_ws,
                    renaming_tab,
                    renaming_ws,
                ).take(j + 1));
            }
        }
        proof {
            let w = workspace_rows(entries@, i as int, active_ws, renaming_tab, renaming_ws);
            if e.collapsed {
                assert(rows@ =~= before + w);
            } else {
                assert(w.take(w.len() as int) =~= w);
                assert(rows@ =~= before + w);
            }
        }
        i = i + 1;
    }
    rows
}

} // verus!
