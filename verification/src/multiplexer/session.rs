use std::path::PathBuf;
use vstd::prelude::*;
use crate::multiplexer::layout::{Layout, PaneId, SplitDirection};
use crate::multiplexer::pane::{PaneState, PaneStatus, nanos_of, path_from_string, path_of};
use crate::text::{chars_of, decimal, string_of, trim_chars, trimmed, with_number};
use crate::multiplexer::workspace::{
    Tab, TabId, TabView, Workspace, WorkspaceId, WorkspaceView, active_tab_index, first_pos,
    idle_forced, idle_step, last_count, selection_started, lemma_first_pos, lemma_idle_step_chain, output_step, pane_after_event,
    position_of, single_tab_view, tab_after_split, tab_idle_checked, tab_ids, tab_views, tab_wf,
    tab_without_pane,
};
use crate::multiplexer::notification::NotificationDetector;
use crate::terminal::grid::TermEvent;
use crate::terminal::selection::Selection;
use crate::ui::sidebar::{TabEntry, WorkspaceEntry};

verus! {

broadcast use vstd::std_specs::hash::group_hash_axioms;

/// The multiplexer's state: workspaces of tabs of panes, which of them has
/// the focus, and the transient modes of the interface (help shown, a
/// rename under way, a selection being dragged).
pub struct Session<E> {
    workspaces: Vec<Workspace<E>>,
    active_workspace: WorkspaceId,
    next_workspace_id: usize,
    next_tab_id: usize,
    show_help: bool,
    renaming_tab: Option<(TabId, String)>,
    renaming_workspace: Option<(WorkspaceId, String)>,
    is_selecting: Option<PaneId>,
}

/// What a session holds, as mathematical values.
pub struct SessionView<E> {
    pub workspaces: Seq<WorkspaceView<E>>,
    pub active_workspace: WorkspaceId,
    pub next_workspace_id: usize,
    pub next_tab_id: usize,
    pub show_help: bool,
    pub renaming_tab: Option<(TabId, Seq<char>)>,
    pub renaming_workspace: Option<(WorkspaceId, Seq<char>)>,
    pub is_selecting: Option<PaneId>,
}

/// A pending rename as mathematical values.
pub open spec fn rename_view(r: Option<(usize, String)>) -> Option<(usize, Seq<char>)> {
    match r {
        Some((id, s)) => Some((id, s@)),
        None => None,
    }
}

/// The views of a sequence of workspaces.
pub open spec fn workspace_views<E>(ws: Seq<Workspace<E>>) -> Seq<WorkspaceView<E>> {
    ws.map_values(|w: Workspace<E>| w@)
}

impl<E> View for Session<E> {
    type V = SessionView<E>;

    closed spec fn view(&self) -> SessionView<E> {
        SessionView {
            workspaces: workspace_views(self.workspaces@),
            active_workspace: self.active_workspace,
            next_workspace_id: self.next_workspace_id,
            next_tab_id: self.next_tab_id,
            show_help: self.show_help,
            renaming_tab: rename_view(self.renaming_tab),
            renaming_workspace: rename_view(self.renaming_workspace),
            is_selecting: self.is_selecting,
        }
    }
}

/// The ids of a sequence of workspaces.
pub open spec fn ws_ids<E>(ws: Seq<WorkspaceView<E>>) -> Seq<WorkspaceId> {
    ws.map_values(|w: WorkspaceView<E>| w.id)
}

/// Index of the active workspace, 0 when no workspace has its id.
pub open spec fn active_ws_index<E>(s: SessionView<E>) -> int {
    match first_pos(ws_ids(s.workspaces), s.active_workspace) {
        Some(p) => p,
        None => 0,
    }
}

/// The active tab of the active workspace.
pub open spec fn active_tab_of<E>(s: SessionView<E>) -> TabView<E> {
    let w = s.workspaces[active_ws_index(s)];
    w.tabs[active_tab_index(w)]
}

/// `s` with tab `ti` of workspace `wi` replaced by `t`.
pub open spec fn with_tab<E>(s: SessionView<E>, wi: int, ti: int, t: TabView<E>) -> SessionView<E> {
    let w = s.workspaces[wi];
    SessionView {
        workspaces: s.workspaces.update(wi, WorkspaceView { tabs: w.tabs.update(ti, t), ..w }),
        ..s
    }
}

/// `s` with workspace `wi` replaced by `w`.
pub open spec fn with_workspace<E>(s: SessionView<E>, wi: int, w: WorkspaceView<E>) -> SessionView<E> {
    SessionView { workspaces: s.workspaces.update(wi, w), ..s }
}

/// `s` with its active tab replaced by `t`.
pub open spec fn with_active_tab<E>(s: SessionView<E>, t: TabView<E>) -> SessionView<E> {
    let wi = active_ws_index(s);
    with_tab(s, wi, active_tab_index(s.workspaces[wi]), t)
}

/// The id after `cur` in `ids`, going round; `cur` itself when it is not in `ids`.
pub open spec fn cycle_next(ids: Seq<usize>, cur: usize) -> usize {
    match first_pos(ids, cur) {
        Some(p) => ids[(p + 1) % (ids.len() as int)],
        None => cur,
    }
}

/// The id before `cur` in `ids`, going round; `cur` itself when it is not in `ids`.
pub open spec fn cycle_prev(ids: Seq<usize>, cur: usize) -> usize {
    match first_pos(ids, cur) {
        Some(p) => ids[(p + ids.len() - 1) % (ids.len() as int)],
        None => cur,
    }
}

/// The index after `pos` in a cycle of `len` positions.
pub fn next_index(pos: usize, len: usize) -> (r: usize)
    requires
        pos < len,
    ensures
        r == (pos + 1) % (len as int),
{
    proof {
        if pos + 1 == len {
            vstd::arithmetic::div_mod::lemma_mod_self_0(len as int);
        } else {
            vstd::arithmetic::div_mod::lemma_small_mod((pos + 1) as nat, len as nat);
        }
    }
    if pos + 1 == len {
        0
    } else {
        pos + 1
    }
}

/// The index before `pos` in a cycle of `len` positions.
pub fn prev_index(pos: usize, len: usize) -> (r: usize)
    requires
        pos < len,
    ensures
        r == (pos + len - 1) % (len as int),
{
    proof {
        if pos == 0 {
            assert((pos + len - 1) % (len as int) == len - 1) by {
                vstd::arithmetic::div_mod::lemma_small_mod((len - 1) as nat, len as nat);
            }
        } else {
            assert((pos + len - 1) % (len as int) == pos - 1) by {
                vstd::arithmetic::div_mod::lemma_mod_add_multiples_vanish(
                    (pos - 1) as int,
                    len as int,
                );
                vstd::arithmetic::div_mod::lemma_small_mod((pos - 1) as nat, len as nat);
            }
        }
    }
    if pos == 0 {
        len - 1
    } else {
        pos - 1
    }
}

/// The id after `cur` in `ids`, going round (`cur` itself when absent).
pub fn cycle_next_id(ids: &Vec<usize>, cur: usize) -> (r: usize)
    ensures
        r == cycle_next(ids@, cur),
{
    match position_of(ids, cur) {
        Some(pos) => {
            proof {
                lemma_first_pos(ids@, cur);
            }
            ids[next_index(pos, ids.len())]
        },
        None => cur,
    }
}

/// The id before `cur` in `ids`, going round (`cur` itself when absent).
pub fn cycle_prev_id(ids: &Vec<usize>, cur: usize) -> (r: usize)
    ensures
        r == cycle_prev(ids@, cur),
{
    match position_of(ids, cur) {
        Some(pos) => {
            proof {
                lemma_first_pos(ids@, cur);
            }
            ids[prev_index(pos, ids.len())]
        },
        None => cur,
    }
}

/// Well-formed session: at least one workspace, each with at least one
/// tab, every tab well formed; workspace ids distinct and below the next
/// workspace id; tab ids distinct over the whole session and below the next tab id.
pub open spec fn session_wf<E>(s: SessionView<E>) -> bool {
    &&& s.workspaces.len() >= 1
    &&& forall|i: int| 0 <= i < s.workspaces.len() ==> #[trigger] s.workspaces[i].tabs.len() >= 1
    &&& forall|i: int, j: int|
        0 <= i < s.workspaces.len() && 0 <= j < s.workspaces[i].tabs.len() ==> tab_wf(
            #[trigger] s.workspaces[i].tabs[j],
        )
    &&& ws_ids(s.workspaces).no_duplicates()
    &&& forall|i: int| 0 <= i < s.workspaces.len() ==> #[trigger] s.workspaces[i].id < s.next_workspace_id
    &&& forall|i: int, j: int|
        0 <= i < s.workspaces.len() && 0 <= j < s.workspaces[i].tabs.len()
            ==> #[trigger] s.workspaces[i].tabs[j].id < s.next_tab_id
    &&& forall|i1: int, j1: int, i2: int, j2: int|
        0 <= i1 < s.workspaces.len() && 0 <= j1 < s.workspaces[i1].tabs.len() && 0 <= i2
            < s.workspaces.len() && 0 <= j2 < s.workspaces[i2].tabs.len() && (i1 != i2 || j1
            != j2) ==> #[trigger] s.workspaces[i1].tabs[j1].id != #[trigger] s.workspaces[i2].tabs[j2].id
}

/// In a well-formed session the active workspace and its active tab exist.
pub proof fn lemma_active_indices<E>(s: SessionView<E>)
    requires
        session_wf(s),
    ensures
        0 <= active_ws_index(s) < s.workspaces.len(),
        0 <= active_tab_index(s.workspaces[active_ws_index(s)]) < s.workspaces[active_ws_index(
            s,
        )].tabs.len(),
        tab_wf(active_tab_of(s)),
{
    lemma_first_pos(ws_ids(s.workspaces), s.active_workspace);
    let w = s.workspaces[active_ws_index(s)];
    lemma_first_pos(tab_ids(w.tabs), w.active_tab);
}

/// Replacing one tab inside the workspace list changes the views exactly there.
pub proof fn lemma_tab_replaced<E>(
    old_ws: Seq<Workspace<E>>,
    new_ws: Seq<Workspace<E>>,
    wi: int,
    ti: int,
    nt: Tab<E>,
)
    requires
        0 <= wi < old_ws.len(),
        0 <= ti < old_ws[wi].tabs@.len(),
        new_ws.len() == old_ws.len(),
        forall|i: int| 0 <= i < old_ws.len() && i != wi ==> new_ws[i] == old_ws[i],
        new_ws[wi].tabs@ == old_ws[wi].tabs@.update(ti, nt),
        new_ws[wi].id == old_ws[wi].id,
        new_ws[wi].name@ == old_ws[wi].name@,
        new_ws[wi].active_tab == old_ws[wi].active_tab,
        new_ws[wi].collapsed == old_ws[wi].collapsed,
    ensures
        workspace_views(new_ws) == workspace_views(old_ws).update(
            wi,
            WorkspaceView { tabs: workspace_views(old_ws)[wi].tabs.update(ti, nt@), ..workspace_views(old_ws)[wi] },
        ),
{
    assert(tab_views(new_ws[wi].tabs@) =~= tab_views(old_ws[wi].tabs@).update(ti, nt@));
    assert(workspace_views(new_ws) =~= workspace_views(old_ws).update(
            wi,
            WorkspaceView { tabs: workspace_views(old_ws)[wi].tabs.update(ti, nt@), ..workspace_views(old_ws)[wi] },
        ));
}

/// Replacing a tab by a well-formed one with the same id keeps the session well formed.
pub proof fn lemma_wf_with_tab<E>(s: SessionView<E>, wi: int, ti: int, t: TabView<E>)
    requires
        session_wf(s),
        0 <= wi < s.workspaces.len(),
        0 <= ti < s.workspaces[wi].tabs.len(),
        tab_wf(t),
        t.id == s.workspaces[wi].tabs[ti].id,
    ensures
        session_wf(with_tab(s, wi, ti, t)),
{
    let s2 = with_tab(s, wi, ti, t);
    assert(ws_ids(s2.workspaces) =~= ws_ids(s.workspaces));
    assert forall|i: int, j: int|
        0 <= i < s2.workspaces.len() && 0 <= j < s2.workspaces[i].tabs.len() implies s2.workspaces[i].tabs[j].id
            == s.workspaces[i].tabs[j].id && (!(i == wi && j == ti) ==> s2.workspaces[i].tabs[j]
            == s.workspaces[i].tabs[j]) by {}
    assert forall|i: int| 0 <= i < s2.workspaces.len() implies #[trigger] s2.workspaces[i].tabs.len()
        == s.workspaces[i].tabs.len() && s2.workspaces[i].id == s.workspaces[i].id by {}
}

/// Replacing a workspace by one with the same id and tabs keeps the session well formed.
pub proof fn lemma_wf_with_workspace<E>(s: SessionView<E>, wi: int, w: WorkspaceView<E>)
    requires
        session_wf(s),
        0 <= wi < s.workspaces.len(),
        w.id == s.workspaces[wi].id,
        w.tabs == s.workspaces[wi].tabs,
    ensures
        session_wf(with_workspace(s, wi, w)),
{
    let s2 = with_workspace(s, wi, w);
    assert(ws_ids(s2.workspaces) =~= ws_ids(s.workspaces));
    assert forall|i: int| 0 <= i < s2.workspaces.len() implies #[trigger] s2.workspaces[i].tabs
        == s.workspaces[i].tabs && s2.workspaces[i].id == s.workspaces[i].id by {}
}

/// For each workspace, whether it has a tab `tab_id`.
pub open spec fn holds_tab<E>(ws: Seq<WorkspaceView<E>>, tab_id: TabId) -> Seq<bool> {
    ws.map_values(|w: WorkspaceView<E>| tab_ids(w.tabs).contains(tab_id))
}

/// For each tab, whether it has a pane `p`.
pub open spec fn holds_pane<E>(tabs: Seq<TabView<E>>, p: PaneId) -> Seq<bool> {
    tabs.map_values(|t: TabView<E>| t.panes.contains_key(p))
}

/// Index of the first workspace with a tab `tab_id`.
pub open spec fn ws_of_tab<E>(s: SessionView<E>, tab_id: TabId) -> Option<int> {
    first_pos(holds_tab(s.workspaces, tab_id), true)
}

/// Closing tab `tab_id` (in the first workspace that has it); the flag says
/// that nothing would be left, the session then being unchanged.
pub open spec fn after_close_tab<E>(s: SessionView<E>, tab_id: TabId) -> (SessionView<E>, bool) {
    match ws_of_tab(s, tab_id) {
        Some(wi) => {
            let ti = first_pos(tab_ids(s.workspaces[wi].tabs), tab_id).unwrap();
            if removal_quits(s, wi) {
                (s, true)
            } else {
                (without_tab(s, wi, ti), false)
            }
        },
        None => (s, false),
    }
}

/// Closing the pane `p` whose program exited, in the first tab of
/// workspace `wi` that has a pane `p`.
pub open spec fn after_pane_exit<E>(s: SessionView<E>, wi: int, p: PaneId) -> (SessionView<E>, bool) {
    match first_pos(holds_pane(s.workspaces[wi].tabs, p), true) {
        Some(ti) => after_close_pane(s, wi, ti, p),
        None => (s, false),
    }
}

/// A freshly made pane `id` in directory `cwd` with git branch `branch`
/// (its output clock aside).
pub open spec fn fresh_pane(p: PaneState, id: PaneId, cwd: PathBuf, branch: Option<String>) -> bool {
    &&& p.id == id
    &&& p.status == PaneStatus::Running
    &&& p.cwd == cwd
    &&& p.git_branch == branch
    &&& p.pane_name is None
    &&& p.terminal_title is None
    &&& p.selection is None
}

/// The directory of the focused pane of tab `t`, if that pane has a state.
pub open spec fn focused_cwd<E>(t: TabView<E>) -> Option<PathBuf> {
    if t.panes.contains_key(t.active_pane) {
        Some(t.panes[t.active_pane].cwd)
    } else {
        None
    }
}

/// The directory a pane split off the focused pane of `t` starts in: that of
/// the focused pane, or the empty path when it has no state.
pub open spec fn split_dir<E>(t: TabView<E>) -> PathBuf {
    match focused_cwd(t) {
        Some(c) => c,
        None => path_of(Seq::empty()),
    }
}

/// The directory a new tab in workspace `ws_id` starts in: that of the
/// focused pane of the workspace's active tab (found by id), if any.
pub open spec fn new_tab_dir<E>(s: SessionView<E>, ws_id: WorkspaceId) -> Option<PathBuf> {
    match first_pos(ws_ids(s.workspaces), ws_id) {
        Some(wi) => {
            let w = s.workspaces[wi];
            match first_pos(tab_ids(w.tabs), w.active_tab) {
                Some(ti) => focused_cwd(w.tabs[ti]),
                None => None,
            }
        },
        None => None,
    }
}

/// The session after a new tab `nt` was made for workspace `ws_id`: the tab
/// id counter moves on in any case; when the workspace exists the tab joins
/// it, and it and its workspace become active.
pub open spec fn after_new_tab<E>(s: SessionView<E>, ws_id: WorkspaceId, nt: TabView<E>) -> SessionView<E> {
    match first_pos(ws_ids(s.workspaces), ws_id) {
        Some(wi) => {
            let w = s.workspaces[wi];
            SessionView {
                workspaces: s.workspaces.update(
                    wi,
                    WorkspaceView { tabs: w.tabs.push(nt), active_tab: nt.id, ..w },
                ),
                active_workspace: ws_id,
                next_tab_id: (s.next_tab_id + 1) as usize,
                ..s
            }
        },
        None => SessionView { next_tab_id: (s.next_tab_id + 1) as usize, ..s },
    }
}

/// The session after a new workspace was made around the new tab `nt`:
/// it is named after its id, comes last and becomes active.
pub open spec fn after_new_workspace<E>(s: SessionView<E>, nt: TabView<E>) -> SessionView<E> {
    SessionView {
        workspaces: s.workspaces.push(
            WorkspaceView {
                id: s.next_workspace_id,
                name: "workspace-"@ + decimal(s.next_workspace_id as nat),
                tabs: seq![nt],
                active_tab: nt.id,
                collapsed: false,
            },
        ),
        active_workspace: s.next_workspace_id,
        next_workspace_id: (s.next_workspace_id + 1) as usize,
        next_tab_id: (s.next_tab_id + 1) as usize,
        ..s
    }
}

/// The terminal `emu` recorded for pane `p` of tab `tab_id` (in the first
/// workspace that has that tab), when that pane exists; the flag says whether it was.
pub open spec fn after_attach<E>(s: SessionView<E>, tab_id: TabId, p: PaneId, emu: E) -> (
    SessionView<E>,
    bool,
) {
    match ws_of_tab(s, tab_id) {
        Some(wi) => {
            let ti = first_pos(tab_ids(s.workspaces[wi].tabs), tab_id).unwrap();
            let t = s.workspaces[wi].tabs[ti];
            if t.panes.contains_key(p) {
                (
                    with_tab(
                        s,
                        wi,
                        ti,
                        TabView {
                            emulators: t.emulators.insert(p, emu),
                            last_output_counts: t.last_output_counts.insert(p, 0),
                            ..t
                        },
                    ),
                    true,
                )
            } else {
                (s, false)
            }
        },
        None => (s, false),
    }
}

/// Adding a fresh well-formed tab keeps the session well formed.
pub proof fn lemma_wf_after_new_tab<E>(s: SessionView<E>, ws_id: WorkspaceId, nt: TabView<E>)
    requires
        session_wf(s),
        tab_wf(nt),
        nt.id == s.next_tab_id,
        s.next_tab_id < usize::MAX,
    ensures
        session_wf(after_new_tab(s, ws_id, nt)),
{
    let s2 = after_new_tab(s, ws_id, nt);
    lemma_first_pos(ws_ids(s.workspaces), ws_id);
    match first_pos(ws_ids(s.workspaces), ws_id) {
        Some(wi) => {
            assert(ws_ids(s2.workspaces) =~= ws_ids(s.workspaces));
            assert forall|i: int, j: int| 0 <= i < s2.workspaces.len() && 0 <= j < s2.workspaces[i].tabs.len()
                implies #[trigger] s2.workspaces[i].tabs[j] == if i == wi && j == s.workspaces[wi].tabs.len() {
                    nt
                } else {
                    s.workspaces[i].tabs[j]
                } by {}
            assert forall|i: int| 0 <= i < s2.workspaces.len() implies #[trigger] s2.workspaces[i].tabs.len()
                >= 1 && s2.workspaces[i].id < s2.next_workspace_id by {}
        },
        None => {
            assert(ws_ids(s2.workspaces) =~= ws_ids(s.workspaces));
        },
    }
}

/// Adding a fresh workspace around a fresh well-formed tab keeps the session well formed.
pub proof fn lemma_wf_after_new_workspace<E>(s: SessionView<E>, nt: TabView<E>)
    requires
        session_wf(s),
        tab_wf(nt),
        nt.id == s.next_tab_id,
        s.next_tab_id < usize::MAX,
        s.next_workspace_id < usize::MAX,
    ensures
        session_wf(after_new_workspace(s, nt)),
{
    let s2 = after_new_workspace(s, nt);
    let n = s.workspaces.len();
    assert(ws_ids(s2.workspaces) =~= ws_ids(s.workspaces).push(s.next_workspace_id));
    assert forall|a: int, b: int|
        0 <= a < ws_ids(s2.workspaces).len() && 0 <= b < ws_ids(s2.workspaces).len() && a != b
        implies ws_ids(s2.workspaces)[a] != ws_ids(s2.workspaces)[b] by {
        if a < n && b < n {
            assert(ws_ids(s2.workspaces)[a] == ws_ids(s.workspaces)[a]);
            assert(ws_ids(s2.workspaces)[b] == ws_ids(s.workspaces)[b]);
        } else if a < n {
            assert(s.workspaces[a].id < s.next_workspace_id);
        } else {
            assert(s.workspaces[b].id < s.next_workspace_id);
        }
    }
    assert forall|i: int, j: int| 0 <= i < s2.workspaces.len() && 0 <= j < s2.workspaces[i].tabs.len()
        implies #[trigger] s2.workspaces[i].tabs[j] == if i == n {
            nt
        } else {
            s.workspaces[i].tabs[j]
        } by {}
    assert forall|i: int| 0 <= i < s2.workspaces.len() implies #[trigger] s2.workspaces[i].tabs.len()
        >= 1 && s2.workspaces[i].id < s2.next_workspace_id by {}
}

/// The name a rename commits: the typed text without surrounding white
/// space, or `fallback` when nothing else is left.
pub open spec fn committed_name(typed: Seq<char>, fallback: Seq<char>) -> Seq<char> {
    if trimmed(typed).len() == 0 {
        fallback
    } else {
        trimmed(typed)
    }
}

/// The name of tab `tab_id` (in the first workspace that has it), empty
/// when there is no such tab.
pub open spec fn tab_name_of<E>(s: SessionView<E>, tab_id: TabId) -> Seq<char> {
    match ws_of_tab(s, tab_id) {
        Some(wi) => s.workspaces[wi].tabs[first_pos(
            tab_ids(s.workspaces[wi].tabs),
            tab_id,
        ).unwrap()].name,
        None => Seq::empty(),
    }
}

/// The name of workspace `ws_id`, empty when there is no such workspace.
pub open spec fn ws_name_of<E>(s: SessionView<E>, ws_id: WorkspaceId) -> Seq<char> {
    match first_pos(ws_ids(s.workspaces), ws_id) {
        Some(wi) => s.workspaces[wi].name,
        None => Seq::empty(),
    }
}

/// Tab `tab_id` renamed to `name` (in the first workspace that has it).
pub open spec fn with_tab_name<E>(s: SessionView<E>, tab_id: TabId, name: Seq<char>) -> SessionView<E> {
    match ws_of_tab(s, tab_id) {
        Some(wi) => {
            let ti = first_pos(tab_ids(s.workspaces[wi].tabs), tab_id).unwrap();
            with_tab(s, wi, ti, TabView { name: name, ..s.workspaces[wi].tabs[ti] })
        },
        None => s,
    }
}

/// Workspace `ws_id` renamed to `name`.
pub open spec fn with_ws_name<E>(s: SessionView<E>, ws_id: WorkspaceId, name: Seq<char>) -> SessionView<E> {
    match first_pos(ws_ids(s.workspaces), ws_id) {
        Some(wi) => with_workspace(s, wi, WorkspaceView { name: name, ..s.workspaces[wi] }),
        None => s,
    }
}

/// The name a rename commits, from the typed text and the fallback name.
pub fn committed_string(typed: &String, fallback: &str) -> (r: String)
    ensures
        r@ == committed_name(typed@, fallback@),
{
    let t = trim_chars(&chars_of(typed.as_str()));
    if t.len() == 0 {
        String::from_str(fallback)
    } else {
        string_of(&t)
    }
}

/// `s2` is `s` after an idle check of every pane: nothing but pane
/// statuses changes, and a status only from running to waiting.
pub open spec fn session_idle_checked<E>(s: SessionView<E>, s2: SessionView<E>) -> bool {
    &&& s2 == SessionView { workspaces: s2.workspaces, ..s }
    &&& s2.workspaces.len() == s.workspaces.len()
    &&& forall|i: int| #![trigger s2.workspaces[i]]
        0 <= i < s.workspaces.len() ==> s2.workspaces[i] == WorkspaceView {
            tabs: s2.workspaces[i].tabs,
            ..s.workspaces[i]
        } && s2.workspaces[i].tabs.len() == s.workspaces[i].tabs.len()
    &&& forall|i: int, j: int|
        0 <= i < s.workspaces.len() && 0 <= j < s.workspaces[i].tabs.len() ==> tab_idle_checked(
            s.workspaces[i].tabs[j],
            #[trigger] s2.workspaces[i].tabs[j],
        )
}

/// For each workspace, whether one of its tabs has a pane `p`.
pub open spec fn holds_pane_anywhere<E>(ws: Seq<WorkspaceView<E>>, p: PaneId) -> Seq<bool> {
    ws.map_values(|w: WorkspaceView<E>| holds_pane(w.tabs, p).contains(true))
}

/// Pane `p` (in the first tab, in workspace order, that has such a pane)
/// with git branch `branch`.
pub open spec fn with_git_branch<E>(s: SessionView<E>, p: PaneId, branch: Option<String>) -> SessionView<E> {
    match first_pos(holds_pane_anywhere(s.workspaces, p), true) {
        Some(wi) => {
            let ti = first_pos(holds_pane(s.workspaces[wi].tabs, p), true).unwrap();
            let t = s.workspaces[wi].tabs[ti];
            with_tab(
                s,
                wi,
                ti,
                TabView {
                    panes: t.panes.insert(p, PaneState { git_branch: branch, ..t.panes[p] }),
                    ..t
                },
            )
        },
        None => s,
    }
}

/// The state of the focused pane of tab `t`, if it has one.
pub open spec fn focused_pane<E>(t: TabView<E>) -> Option<PaneState> {
    if t.panes.contains_key(t.active_pane) {
        Some(t.panes[t.active_pane])
    } else {
        None
    }
}

/// The window title: "terminal++ — workspace — tab", and " — title" after
/// it when the focused pane's program set a non-empty title. The workspace
/// is found by id ("default" when none has it).
pub open spec fn title_of<E>(s: SessionView<E>) -> Seq<char> {
    let ws_name = match first_pos(ws_ids(s.workspaces), s.active_workspace) {
        Some(i) => s.workspaces[i].name,
        None => "default"@,
    };
    let t = active_tab_of(s);
    let term: Seq<char> = match focused_pane(t) {
        Some(p) => match p.terminal_title {
            Some(x) => x@,
            None => Seq::empty(),
        },
        None => Seq::empty(),
    };
    let base = "terminal++ — "@ + ws_name + " — "@ + t.name;
    if term.len() == 0 {
        base
    } else {
        base + " — "@ + term
    }
}

/// `e` shows tab `t`: its id and name, and of its focused pane the git
/// branch, the title and whether it waits.
pub open spec fn shows_tab<E>(e: TabEntry, t: TabView<E>) -> bool {
    &&& e.id == t.id
    &&& e.name@ == t.name
    &&& e.git_branch == match focused_pane(t) {
        Some(p) => p.git_branch,
        None => None,
    }
    &&& e.terminal_title == match focused_pane(t) {
        Some(p) => p.terminal_title,
        None => None,
    }
    &&& e.has_waiting == match focused_pane(t) {
        Some(p) => p.status == PaneStatus::Waiting,
        None => false,
    }
}

/// `e` shows workspace `w` and each of its tabs, in order.
pub open spec fn shows_workspace<E>(e: WorkspaceEntry, w: WorkspaceView<E>) -> bool {
    &&& e.id == w.id
    &&& e.name@ == w.name
    &&& e.active_tab_id == w.active_tab
    &&& e.collapsed == w.collapsed
    &&& e.tabs@.len() == w.tabs.len()
    &&& forall|j: int| 0 <= j < w.tabs.len() ==> shows_tab(#[trigger] e.tabs@[j], w.tabs[j])
}

/// Appends the characters of `s` to `out`.
pub fn append_chars(out: &mut Vec<char>, s: &str)
    ensures
        final(out)@ == old(out)@ + s@,
{
    let c = chars_of(s);
    let mut k: usize = 0;
    while k < c.len()
        invariant
            k <= c@.len(),
            c@ == s@,
            out@ == old(out)@ + c@.take(k as int),
        decreases c@.len() - k,
    {
        out.push(c[k]);
        k = k + 1;
        assert(out@ =~= old(out)@ + c@.take(k as int));
    }
    assert(c@.take(k as int) =~= c@);
}

/// What the sidebar shows of tab `t`.
pub fn tab_entry<E>(t: &Tab<E>) -> (e: TabEntry)
    ensures
        shows_tab(e, t@),
{
    match t.panes.get(&t.active_pane) {
        Some(p) => TabEntry {
            id: t.id,
            name: t.name.clone(),
            git_branch: match &p.git_branch {
                Some(b) => Some(b.clone()),
                None => None,
            },
            terminal_title: match &p.terminal_title {
                Some(x) => Some(x.clone()),
                None => None,
            },
            has_waiting: p.status == PaneStatus::Waiting,
        },
        None => TabEntry {
            id: t.id,
            name: t.name.clone(),
            git_branch: None,
            terminal_title: None,
            has_waiting: false,
        },
    }
}

/// A pane whose program exited: (workspace index, tab index, pane id).
pub type Exit = (usize, usize, PaneId);

/// `a` comes at or before `b` in decreasing lexicographic order.
pub open spec fn exit_ge(a: Exit, b: Exit) -> bool {
    a.0 > b.0 || (a.0 == b.0 && (a.1 > b.1 || (a.1 == b.1 && a.2 >= b.2)))
}

/// The exits are in decreasing lexicographic order.
pub open spec fn exits_descending(s: Seq<Exit>) -> bool {
    forall|i: int, j: int| 0 <= i < j < s.len() ==> exit_ge(#[trigger] s[i], #[trigger] s[j])
}

/// The exits in decreasing lexicographic order (so that closing them one by
/// one never shifts the indices of those still to close).
pub fn order_exits(v: Vec<Exit>) -> (r: Vec<Exit>)
    ensures
        exits_descending(r@),
        r@.to_multiset() == v@.to_multiset(),
{
    let mut r: Vec<Exit> = Vec::new();
    let mut i: usize = 0;
    assert(v@.take(0) =~= r@);
    while i < v.len()
        invariant
            i <= v@.len(),
            exits_descending(r@),
            r@.to_multiset() == v@.take(i as int).to_multiset(),
        decreases v@.len() - i,
    {
        let x = v[i];
        let mut pos: usize = 0;
        while pos < r.len() && exit_ge_exec(r[pos], x)
            invariant
                pos <= r@.len(),
                forall|k: int| 0 <= k < pos ==> exit_ge(#[trigger] r@[k], x),
            decreases r@.len() - pos,
        {
            pos = pos + 1;
        }
        let ghost old_r = r@;
        r.insert(pos, x);
        proof {
            assert(r@ == old_r.insert(pos as int, x));
            assert forall|a: int, b: int| 0 <= a < b < r@.len() implies exit_ge(
                #[trigger] r@[a],
                #[trigger] r@[b],
            ) by {
                if b < pos {
                } else if b == pos {
                    assert(exit_ge(old_r[a], x));
                } else if a < pos {
                    assert(exit_ge(old_r[a], x));
                    assert(exit_ge(x, old_r[pos as int]));
                    if b - 1 > pos {
                        assert(exit_ge(old_r[pos as int], old_r[b - 1]));
                    }
                } else if a == pos {
                    assert(!exit_ge(old_r[pos as int], x));
                    if b - 1 > pos {
                        assert(exit_ge(old_r[pos as int], old_r[b - 1]));
                    }
                } else {
                    assert(exit_ge(old_r[a - 1], old_r[b - 1]));
                }
            }
            assert(v@.take(i + 1) =~= v@.take(i as int).insert(i as int, x));
            vstd::seq_lib::to_multiset_insert(old_r, pos as int, x);
            vstd::seq_lib::to_multiset_insert(v@.take(i as int), i as int, x);
        }
        i = i + 1;
    }
    assert(v@.take(i as int) =~= v@);
    r
}

fn exit_ge_exec(a: Exit, b: Exit) -> (r: bool)
    ensures
        r == exit_ge(a, b),
{
    a.0 > b.0 || (a.0 == b.0 && (a.1 > b.1 || (a.1 == b.1 && a.2 >= b.2)))
}

/// Removing tab `ti` of workspace `wi` would leave no tab at all.
pub open spec fn removal_quits<E>(s: SessionView<E>, wi: int) -> bool {
    s.workspaces.len() == 1 && s.workspaces[wi].tabs.len() == 1
}

/// `s` without tab `ti` of workspace `wi`: the next tab (or the last one)
/// becomes the workspace's active tab; a workspace left without tabs goes,
/// and the next workspace (or the last one) becomes active.
pub open spec fn without_tab<E>(s: SessionView<E>, wi: int, ti: int) -> SessionView<E> {
    let w = s.workspaces[wi];
    let tabs = w.tabs.remove(ti);
    if tabs.len() == 0 {
        let ws = s.workspaces.remove(wi);
        let nwi = if wi < ws.len() {
            wi
        } else {
            ws.len() - 1
        };
        SessionView { workspaces: ws, active_workspace: ws[nwi].id, ..s }
    } else {
        let nti = if ti < tabs.len() {
            ti
        } else {
            tabs.len() - 1
        };
        with_workspace(s, wi, WorkspaceView { tabs: tabs, active_tab: tabs[nti].id, ..w })
    }
}

/// Closing pane `p` of tab `ti` of workspace `wi`: the pane leaves its
/// layout, or, when it was the tab's only pane, the tab closes. The flag
/// says that nothing would be left, in which case the session is unchanged
/// and the program ends.
pub open spec fn after_close_pane<E>(s: SessionView<E>, wi: int, ti: int, p: PaneId) -> (
    SessionView<E>,
    bool,
) {
    let t = s.workspaces[wi].tabs[ti];
    match t.layout.spec_remove(p) {
        Some(nl) => (with_tab(s, wi, ti, tab_without_pane(t, p, nl)), false),
        None => if removal_quits(s, wi) {
            (s, true)
        } else {
            (without_tab(s, wi, ti), false)
        },
    }
}

/// Dropping a tab keeps the session well formed, unless nothing would be left.
pub proof fn lemma_wf_without_tab<E>(s: SessionView<E>, wi: int, ti: int)
    requires
        session_wf(s),
        0 <= wi < s.workspaces.len(),
        0 <= ti < s.workspaces[wi].tabs.len(),
        !removal_quits(s, wi),
    ensures
        session_wf(without_tab(s, wi, ti)),
{
    let w = s.workspaces[wi];
    let tabs = w.tabs.remove(ti);
    let s2 = without_tab(s, wi, ti);
    if tabs.len() == 0 {
        let ws = s.workspaces.remove(wi);
        assert(ws_ids(ws) =~= ws_ids(s.workspaces).remove(wi));
        assert forall|i: int| 0 <= i < ws.len() implies #[trigger] ws[i] == s.workspaces[if i < wi {
            i
        } else {
            i + 1
        }] by {}
        assert forall|i1: int, j1: int, i2: int, j2: int|
            0 <= i1 < ws.len() && 0 <= j1 < ws[i1].tabs.len() && 0 <= i2 < ws.len() && 0 <= j2
                < ws[i2].tabs.len() && (i1 != i2 || j1 != j2) implies #[trigger] ws[i1].tabs[j1].id
            != #[trigger] ws[i2].tabs[j2].id by {
            let k1 = if i1 < wi {
                i1
            } else {
                i1 + 1
            };
            let k2 = if i2 < wi {
                i2
            } else {
                i2 + 1
            };
            assert(ws[i1] == s.workspaces[k1]);
            assert(ws[i2] == s.workspaces[k2]);
        }
        assert forall|i: int, j: int|
            0 <= i < ws.len() && 0 <= j < ws[i].tabs.len() implies tab_wf(#[trigger] ws[i].tabs[j])
            && ws[i].tabs[j].id < s.next_tab_id by {
            let k = if i < wi {
                i
            } else {
                i + 1
            };
            assert(ws[i] == s.workspaces[k]);
        }
        lemma_remove_keeps_distinct(ws_ids(s.workspaces), wi);
    } else {
        let nti = if ti < tabs.len() {
            ti
        } else {
            tabs.len() - 1
        };
        let nw = WorkspaceView { tabs: tabs, active_tab: tabs[nti].id, ..w };
        let ws = s.workspaces.update(wi, nw);
        assert(ws_ids(ws) =~= ws_ids(s.workspaces));
        assert forall|i: int, j: int| 0 <= i < ws.len() && 0 <= j < ws[i].tabs.len() implies #[trigger]
            ws[i].tabs[j] == s.workspaces[i].tabs[if i == wi && j >= ti {
                j + 1
            } else {
                j
            }] by {}
        assert forall|i1: int, j1: int, i2: int, j2: int|
            0 <= i1 < ws.len() && 0 <= j1 < ws[i1].tabs.len() && 0 <= i2 < ws.len() && 0 <= j2
                < ws[i2].tabs.len() && (i1 != i2 || j1 != j2) implies #[trigger] ws[i1].tabs[j1].id
            != #[trigger] ws[i2].tabs[j2].id by {
            let k1 = if i1 == wi && j1 >= ti {
                j1 + 1
            } else {
                j1
            };
            let k2 = if i2 == wi && j2 >= ti {
                j2 + 1
            } else {
                j2
            };
            assert(ws[i1].tabs[j1] == s.workspaces[i1].tabs[k1]);
            assert(ws[i2].tabs[j2] == s.workspaces[i2].tabs[k2]);
        }
        assert forall|i: int| 0 <= i < ws.len() implies #[trigger] ws[i].tabs.len() >= 1
            && ws[i].id < s.next_workspace_id by {}
    }
}

/// Removing an element keeps the others distinct.
pub proof fn lemma_remove_keeps_distinct(ids: Seq<usize>, i: int)
    requires
        ids.no_duplicates(),
        0 <= i < ids.len(),
    ensures
        ids.remove(i).no_duplicates(),
{
    let r = ids.remove(i);
    assert forall|a: int, b: int| 0 <= a < r.len() && 0 <= b < r.len() && a != b implies r[a]
        != r[b] by {
        let ka = if a < i {
            a
        } else {
            a + 1
        };
        let kb = if b < i {
            b
        } else {
            b + 1
        };
        assert(r[a] == ids[ka]);
        assert(r[b] == ids[kb]);
    }
}

/// Each tab of a well-formed session is well formed.
pub proof fn lemma_tab_of_wf<E>(s: SessionView<E>, wi: int, ti: int)
    requires
        session_wf(s),
        0 <= wi < s.workspaces.len(),
        0 <= ti < s.workspaces[wi].tabs.len(),
    ensures
        tab_wf(s.workspaces[wi].tabs[ti]),
{
}

/// Two idle checks of a tab in a row are one.
pub proof fn lemma_tab_idle_chain<E>(a: TabView<E>, b: TabView<E>, c: TabView<E>)
    requires
        tab_idle_checked(a, b),
        tab_idle_checked(b, c),
    ensures
        tab_idle_checked(a, c),
{
    assert forall|p: PaneId| #[trigger] a.panes.contains_key(p) implies idle_step(a.panes[p], c.panes[p]) by {
        lemma_idle_step_chain(a.panes[p], b.panes[p], c.panes[p]);
    }
}

/// An idle check keeps a tab well formed.
pub proof fn lemma_tab_idle_wf<E>(a: TabView<E>, b: TabView<E>)
    requires
        tab_wf(a),
        tab_idle_checked(a, b),
    ensures
        tab_wf(b),
{
    assert forall|p: PaneId| #[trigger] b.panes.contains_key(p) implies b.panes[p].id == p by {
        assert(a.panes.contains_key(p));
        assert(idle_step(a.panes[p], b.panes[p]));
    }
}

/// Replacing the same tab twice is replacing it once, by the second tab.
pub proof fn lemma_with_tab_twice<E>(s: SessionView<E>, wi: int, ti: int, a: TabView<E>, b: TabView<E>)
    requires
        0 <= wi < s.workspaces.len(),
        0 <= ti < s.workspaces[wi].tabs.len(),
    ensures
        with_tab(with_tab(s, wi, ti, a), wi, ti, b) == with_tab(s, wi, ti, b),
{
    let w = s.workspaces[wi];
    assert(w.tabs.update(ti, a).update(ti, b) =~= w.tabs.update(ti, b));
    assert(with_tab(with_tab(s, wi, ti, a), wi, ti, b).workspaces =~= with_tab(s, wi, ti, b).workspaces);
}

/// Putting a tab back in its place changes nothing.
pub proof fn lemma_with_same_tab<E>(s: SessionView<E>, wi: int, ti: int)
    requires
        0 <= wi < s.workspaces.len(),
        0 <= ti < s.workspaces[wi].tabs.len(),
    ensures
        with_tab(s, wi, ti, s.workspaces[wi].tabs[ti]) == s,
{
    let w = s.workspaces[wi];
    assert(w.tabs.update(ti, w.tabs[ti]) =~= w.tabs);
    assert(WorkspaceView { tabs: w.tabs.update(ti, w.tabs[ti]), ..w } == w);
    assert(s.workspaces.update(wi, w) =~= s.workspaces);
}

impl<E> Session<E> {
    /// The session is well formed.
    pub closed spec fn wf(&self) -> bool {
        session_wf(self@)
    }

    /// Index of the active workspace in the workspace list (0 if its id is not found).
    pub fn active_ws_idx(&self) -> (i: usize)
        ensures
            i == active_ws_index(self@),
    {
        let ids = self.workspace_id_list();
        match position_of(&ids, self.active_workspace) {
            Some(p) => p,
            None => 0,
        }
    }

    /// Gives the focus to pane `p` in tab `ti` of workspace `wi`.
    fn set_active_pane_at(&mut self, wi: usize, ti: usize, p: PaneId)
        requires
            old(self).wf(),
            wi < old(self)@.workspaces.len(),
            ti < old(self)@.workspaces[wi as int].tabs.len(),
        ensures
            final(self).wf(),
            final(self)@ == with_tab(
                old(self)@,
                wi as int,
                ti as int,
                TabView { active_pane: p, ..old(self)@.workspaces[wi as int].tabs[ti as int] },
            ),
    {
        self.workspaces[wi].tabs[ti].active_pane = p;
        proof {
            lemma_tab_replaced(
                old(self).workspaces@,
                self.workspaces@,
                wi as int,
                ti as int,
                self.workspaces@[wi as int].tabs@[ti as int],
            );
            let nt = TabView { active_pane: p, ..old(self)@.workspaces[wi as int].tabs[ti as int] };
            assert(self@ =~~= with_tab(old(self)@, wi as int, ti as int, nt));
            lemma_wf_with_tab(old(self)@, wi as int, ti as int, nt);
        }
    }

    /// Moves the focus to the next pane of the active tab, going round.
    pub fn focus_next(&mut self)
        requires
            old(self).wf(),
        ensures
            final(self).wf(),
            final(self)@ == with_active_tab(
                old(self)@,
                TabView {
                    active_pane: cycle_next(
                        active_tab_of(old(self)@).layout.ids(),
                        active_tab_of(old(self)@).active_pane,
                    ),
                    ..active_tab_of(old(self)@)
                },
            ),
    {
        proof {
            lemma_active_indices(self@);
        }
        let wi = self.active_ws_idx();
        let ti = self.workspaces[wi].active_tab_idx();
        let ids = self.workspaces[wi].tabs[ti].layout.pane_ids();
        let n = cycle_next_id(&ids, self.workspaces[wi].tabs[ti].active_pane);
        self.set_active_pane_at(wi, ti, n);
    }

    /// Moves the focus to the previous pane of the active tab, going round.
    pub fn focus_prev(&mut self)
        requires
            old(self).wf(),
        ensures
            final(self).wf(),
            final(self)@ == with_active_tab(
                old(self)@,
                TabView {
                    active_pane: cycle_prev(
                        active_tab_of(old(self)@).layout.ids(),
                        active_tab_of(old(self)@).active_pane,
                    ),
                    ..active_tab_of(old(self)@)
                },
            ),
    {
        proof {
            lemma_active_indices(self@);
        }
        let wi = self.active_ws_idx();
        let ti = self.workspaces[wi].active_tab_idx();
        let ids = self.workspaces[wi].tabs[ti].layout.pane_ids();
        let n = cycle_prev_id(&ids, self.workspaces[wi].tabs[ti].active_pane);
        self.set_active_pane_at(wi, ti, n);
    }

    /// Gives the focus to pane `pane_id` of the active tab (as a click on it does).
    pub fn focus_pane(&mut self, pane_id: PaneId)
        requires
            old(self).wf(),
        ensures
            final(self).wf(),
            final(self)@ == with_active_tab(
                old(self)@,
                TabView { active_pane: pane_id, ..active_tab_of(old(self)@) },
            ),
    {
        proof {
            lemma_active_indices(self@);
        }
        let wi = self.active_ws_idx();
        let ti = self.workspaces[wi].active_tab_idx();
        self.set_active_pane_at(wi, ti, pane_id);
    }

    /// Makes tab `tab_id` the active tab of workspace `wi`.
    fn set_active_tab_at(&mut self, wi: usize, tab_id: TabId)
        requires
            old(self).wf(),
            wi < old(self)@.workspaces.len(),
        ensures
            final(self).wf(),
            final(self)@ == with_workspace(
                old(self)@,
                wi as int,
                WorkspaceView { active_tab: tab_id, ..old(self)@.workspaces[wi as int] },
            ),
    {
        self.workspaces[wi].active_tab = tab_id;
        proof {
            let nw = WorkspaceView { active_tab: tab_id, ..old(self)@.workspaces[wi as int] };
            assert(self.workspaces@[wi as int].tabs@ == old(self).workspaces@[wi as int].tabs@);
            assert(self.workspaces@[wi as int]@ == nw);
            assert(workspace_views(self.workspaces@) =~= workspace_views(old(self).workspaces@).update(
                wi as int,
                nw,
            ));
            assert(self@ =~~= with_workspace(old(self)@, wi as int, nw));
            lemma_wf_with_workspace(old(self)@, wi as int, nw);
        }
    }

    /// Moves to the next tab of the active workspace, going round.
    pub fn focus_tab_next(&mut self)
        requires
            old(self).wf(),
        ensures
            final(self).wf(),
            final(self)@ == with_workspace(
                old(self)@,
                active_ws_index(old(self)@),
                WorkspaceView {
                    active_tab: cycle_next(
                        tab_ids(old(self)@.workspaces[active_ws_index(old(self)@)].tabs),
                        old(self)@.workspaces[active_ws_index(old(self)@)].active_tab,
                    ),
                    ..old(self)@.workspaces[active_ws_index(old(self)@)]
                },
            ),
    {
        proof {
            lemma_active_indices(self@);
        }
        let wi = self.active_ws_idx();
        let ids = self.workspaces[wi].tab_id_list();
        let n = cycle_next_id(&ids, self.workspaces[wi].active_tab);
        self.set_active_tab_at(wi, n);
    }

    /// Moves to the previous tab of the active workspace, going round.
    pub fn focus_tab_prev(&mut self)
        requires
            old(self).wf(),
        ensures
            final(self).wf(),
            final(self)@ == with_workspace(
                old(self)@,
                active_ws_index(old(self)@),
                WorkspaceView {
                    active_tab: cycle_prev(
                        tab_ids(old(self)@.workspaces[active_ws_index(old(self)@)].tabs),
                        old(self)@.workspaces[active_ws_index(old(self)@)].active_tab,
                    ),
                    ..old(self)@.workspaces[active_ws_index(old(self)@)]
                },
            ),
    {
        proof {
            lemma_active_indices(self@);
        }
        let wi = self.active_ws_idx();
        let ids = self.workspaces[wi].tab_id_list();
        let n = cycle_prev_id(&ids, self.workspaces[wi].active_tab);
        self.set_active_tab_at(wi, n);
    }

    /// The ids of the workspaces, in order.
    pub fn workspace_id_list(&self) -> (v: Vec<WorkspaceId>)
        ensures
            v@ == ws_ids(self@.workspaces),
    {
        let mut ids: Vec<WorkspaceId> = Vec::new();
        let mut k: usize = 0;
        while k < self.workspaces.len()
            invariant
                k <= self.workspaces@.len(),
                ids@ == ws_ids(self@.workspaces).take(k as int),
            decreases self.workspaces@.len() - k,
        {
            ids.push(self.workspaces[k].id);
            k = k + 1;
            assert(ids@ =~= ws_ids(self@.workspaces).take(k as int));
        }
        assert(ws_ids(self@.workspaces).take(k as int) =~= ws_ids(self@.workspaces));
        ids
    }

    /// Moves to the next workspace, going round.
    pub fn focus_workspace_next(&mut self)
        requires
            old(self).wf(),
        ensures
            final(self).wf(),
            final(self)@ == (SessionView {
                active_workspace: cycle_next(
                    ws_ids(old(self)@.workspaces),
                    old(self)@.active_workspace,
                ),
                ..old(self)@
            }),
    {
        let ids = self.workspace_id_list();
        self.active_workspace = cycle_next_id(&ids, self.active_workspace);
    }

    /// Moves to the previous workspace, going round.
    pub fn focus_workspace_prev(&mut self)
        requires
            old(self).wf(),
        ensures
            final(self).wf(),
            final(self)@ == (SessionView {
                active_workspace: cycle_prev(
                    ws_ids(old(self)@.workspaces),
                    old(self)@.active_workspace,
                ),
                ..old(self)@
            }),
    {
        let ids = self.workspace_id_list();
        self.active_workspace = cycle_prev_id(&ids, self.active_workspace);
    }

    /// Closes tab `ti` of workspace `wi`; `true`, with nothing changed, when
    /// it is the last tab left.
    fn remove_tab_at(&mut self, wi: usize, ti: usize) -> (quit: bool)
        requires
            old(self).wf(),
            wi < old(self)@.workspaces.len(),
            ti < old(self)@.workspaces[wi as int].tabs.len(),
        ensures
            final(self).wf(),
            quit == removal_quits(old(self)@, wi as int),
            quit ==> final(self)@ == old(self)@,
            !quit ==> final(self)@ == without_tab(old(self)@, wi as int, ti as int),
    {
        if self.workspaces.len() == 1 && self.workspaces[wi].tabs.len() == 1 {
            return true;
        }
        proof {
            lemma_wf_without_tab(self@, wi as int, ti as int);
        }
        let _closed = self.workspaces[wi].tabs.remove(ti);
        proof {
            assert(tab_views(self.workspaces@[wi as int].tabs@) =~= tab_views(
                old(self).workspaces@[wi as int].tabs@,
            ).remove(ti as int));
        }
        if self.workspaces[wi].tabs.len() == 0 {
            let _gone = self.workspaces.remove(wi);
            let nwi = if wi < self.workspaces.len() {
                wi
            } else {
                self.workspaces.len() - 1
            };
            self.active_workspace = self.workspaces[nwi].id;
            proof {
                assert(workspace_views(self.workspaces@) =~= workspace_views(
                    old(self).workspaces@,
                ).remove(wi as int));
                assert(self@ =~~= without_tab(old(self)@, wi as int, ti as int));
            }
        } else {
            let n = self.workspaces[wi].tabs.len();
            let nti = if ti < n {
                ti
            } else {
                n - 1
            };
            let id = self.workspaces[wi].tabs[nti].id;
            self.workspaces[wi].active_tab = id;
            proof {
                let w = old(self)@.workspaces[wi as int];
                let tabs = w.tabs.remove(ti as int);
                let nw = WorkspaceView { tabs: tabs, active_tab: tabs[nti as int].id, ..w };
                assert(self.workspaces@[wi as int]@ =~~= nw);
                assert(workspace_views(self.workspaces@) =~~= workspace_views(
                    old(self).workspaces@,
                ).update(wi as int, nw));
                assert(self@ =~~= without_tab(old(self)@, wi as int, ti as int));
            }
        }
        false
    }

    /// Closes pane `pane_id` of tab `ti` of workspace `wi` (the tab too when
    /// it was its only pane); `true`, with nothing changed, when nothing
    /// would be left.
    fn close_pane_at(&mut self, wi: usize, ti: usize, pane_id: PaneId) -> (quit: bool)
        requires
            old(self).wf(),
            wi < old(self)@.workspaces.len(),
            ti < old(self)@.workspaces[wi as int].tabs.len(),
        ensures
            final(self).wf(),
            (final(self)@, quit) == after_close_pane(old(self)@, wi as int, ti as int, pane_id),
    {
        proof {
            lemma_tab_of_wf(self@, wi as int, ti as int);
        }
        let removed = self.workspaces[wi].tabs[ti].layout.remove(pane_id);
        match removed {
            Some(nl) => {
                proof {
                    crate::multiplexer::layout::law_remove(
                        old(self)@.workspaces[wi as int].tabs[ti as int].layout,
                        pane_id,
                    );
                    crate::multiplexer::layout::lemma_first_pane_is_first_id(nl);
                }
                self.workspaces[wi].tabs[ti].drop_pane(pane_id, nl);
                proof {
                    let t = old(self)@.workspaces[wi as int].tabs[ti as int];
                    let nt = tab_without_pane(t, pane_id, nl);
                    lemma_tab_replaced(
                        old(self).workspaces@,
                        self.workspaces@,
                        wi as int,
                        ti as int,
                        self.workspaces@[wi as int].tabs@[ti as int],
                    );
                    assert(self.workspaces@[wi as int].tabs@[ti as int]@ =~~= nt);
                    assert(self@ =~~= with_tab(old(self)@, wi as int, ti as int, nt));
                    assert(tab_wf(nt));
                    lemma_wf_with_tab(old(self)@, wi as int, ti as int, nt);
                }
                false
            },
            None => self.remove_tab_at(wi, ti),
        }
    }

    /// Closes the focused pane (the tab too when it was its only pane, the
    /// workspace too when that was its only tab); `true`, with nothing
    /// changed, when it was the last pane of all, and the program should end.
    pub fn close_active_pane(&mut self) -> (quit: bool)
        requires
            old(self).wf(),
        ensures
            final(self).wf(),
            (final(self)@, quit) == after_close_pane(
                old(self)@,
                active_ws_index(old(self)@),
                active_tab_index(old(self)@.workspaces[active_ws_index(old(self)@)]),
                active_tab_of(old(self)@).active_pane,
            ),
    {
        proof {
            lemma_active_indices(self@);
        }
        let wi = self.active_ws_idx();
        let ti = self.workspaces[wi].active_tab_idx();
        let pane_id = self.workspaces[wi].tabs[ti].active_pane;
        self.close_pane_at(wi, ti, pane_id)
    }

    /// Index of the first workspace that has a tab `tab_id`.
    pub fn ws_index_of_tab(&self, tab_id: TabId) -> (r: Option<usize>)
        ensures
            r matches Some(i) ==> ws_of_tab(self@, tab_id) == Some(i as int),
            r is None ==> ws_of_tab(self@, tab_id) is None,
    {
        let ghost flags = holds_tab(self@.workspaces, tab_id);
        let mut k: usize = 0;
        while k < self.workspaces.len()
            invariant
                k <= self.workspaces@.len(),
                flags == holds_tab(self@.workspaces, tab_id),
                forall|j: int| 0 <= j < k ==> flags[j] != true,
            decreases self.workspaces@.len() - k,
        {
            let ids = self.workspaces[k].tab_id_list();
            let found = position_of(&ids, tab_id);
            proof {
                lemma_first_pos(ids@, tab_id);
            }
            if found.is_some() {
                proof {
                    crate::multiplexer::workspace::lemma_first_pos_at(flags, true, k as int);
                }
                return Some(k);
            }
            k = k + 1;
        }
        proof {
            lemma_first_pos(flags, true);
            if flags.contains(true) {
                let j = choose|j: int| 0 <= j < flags.len() && flags[j] == true;
                assert(flags[j] != true);
            }
        }
        None
    }

    /// Index of the first tab of workspace `wi` that has a pane `p`.
    pub fn tab_index_of_pane(&self, wi: usize, p: PaneId) -> (r: Option<usize>)
        requires
            wi < self@.workspaces.len(),
        ensures
            r matches Some(i) ==> first_pos(holds_pane(self@.workspaces[wi as int].tabs, p), true)
                == Some(i as int),
            r is None ==> first_pos(holds_pane(self@.workspaces[wi as int].tabs, p), true) is None,
    {
        let ghost flags = holds_pane(self@.workspaces[wi as int].tabs, p);
        let mut k: usize = 0;
        while k < self.workspaces[wi].tabs.len()
            invariant
                wi < self@.workspaces.len(),
                k <= self@.workspaces[wi as int].tabs.len(),
                flags == holds_pane(self@.workspaces[wi as int].tabs, p),
                forall|j: int| 0 <= j < k ==> flags[j] != true,
            decreases self@.workspaces[wi as int].tabs.len() - k,
        {
            if self.workspaces[wi].tabs[k].panes.contains_key(&p) {
                proof {
                    crate::multiplexer::workspace::lemma_first_pos_at(flags, true, k as int);
                }
                return Some(k);
            }
            k = k + 1;
        }
        proof {
            lemma_first_pos(flags, true);
            if flags.contains(true) {
                let j = choose|j: int| 0 <= j < flags.len() && flags[j] == true;
                assert(flags[j] != true);
            }
        }
        None
    }

    /// Closes tab `tab_id` (in the first workspace that has it); `true`, with
    /// nothing changed, when it is the last tab left.
    pub fn close_tab(&mut self, tab_id: TabId) -> (quit: bool)
        requires
            old(self).wf(),
        ensures
            final(self).wf(),
            (final(self)@, quit) == after_close_tab(old(self)@, tab_id),
    {
        match self.ws_index_of_tab(tab_id) {
            Some(wi) => {
                proof {
                    let flags = holds_tab(self@.workspaces, tab_id);
                    lemma_first_pos(flags, true);
                    assert(flags[wi as int]);
                }
                let ids = self.workspaces[wi].tab_id_list();
                proof {
                    lemma_first_pos(ids@, tab_id);
                }
                match position_of(&ids, tab_id) {
                    Some(ti) => {
                        proof {
                            lemma_first_pos(ids@, tab_id);
                        }
                        self.remove_tab_at(wi, ti)
                    },
                    None => false,
                }
            },
            None => false,
        }
    }

    /// Closes pane `pane_id` of workspace `wi` once its program has exited
    /// (in the first tab of that workspace that has such a pane); `true`,
    /// with nothing changed, when it was the last pane of all.
    pub fn close_exited_pane(&mut self, wi: usize, pane_id: PaneId) -> (quit: bool)
        requires
            old(self).wf(),
            wi < old(self)@.workspaces.len(),
        ensures
            final(self).wf(),
            (final(self)@, quit) == after_pane_exit(old(self)@, wi as int, pane_id),
    {
        match self.tab_index_of_pane(wi, pane_id) {
            Some(ti) => {
                proof {
                    lemma_first_pos(holds_pane(self@.workspaces[wi as int].tabs, pane_id), true);
                }
                self.close_pane_at(wi, ti, pane_id)
            },
            None => false,
        }
    }

    /// The initial session: workspace 0 "default" with tab 0 "main" holding
    /// pane 0 in `cwd`, with git branch `git_branch` and terminal `emu`.
    pub fn new(cwd: PathBuf, git_branch: Option<String>, emu: Option<E>) -> (s: Self)
        ensures
            s.wf(),
            s@.workspaces.len() == 1,
            s@.workspaces[0].id == 0,
            s@.workspaces[0].name == "default"@,
            s@.workspaces[0].active_tab == 0,
            !s@.workspaces[0].collapsed,
            s@.workspaces[0].tabs.len() == 1,
            s@.workspaces[0].tabs[0] == single_tab_view(
                0,
                "main"@,
                s@.workspaces[0].tabs[0].panes[0],
                emu,
            ),
            fresh_pane(s@.workspaces[0].tabs[0].panes[0], 0, cwd, git_branch),
            s@.active_workspace == 0,
            s@.next_workspace_id == 1,
            s@.next_tab_id == 1,
            !s@.show_help,
            s@.renaming_tab is None,
            s@.renaming_workspace is None,
            s@.is_selecting is None,
    {
        let mut pane = PaneState::new(0, cwd);
        pane.git_branch = git_branch;
        let tab = Tab::single(0, String::from_str("main"), pane, emu);
        let mut tabs: Vec<Tab<E>> = Vec::new();
        tabs.push(tab);
        let ws = Workspace {
            id: 0,
            name: String::from_str("default"),
            tabs,
            active_tab: 0,
            collapsed: false,
        };
        let mut workspaces: Vec<Workspace<E>> = Vec::new();
        workspaces.push(ws);
        let s = Session {
            workspaces,
            active_workspace: 0,
            next_workspace_id: 1,
            next_tab_id: 1,
            show_help: false,
            renaming_tab: None,
            renaming_workspace: None,
            is_selecting: None,
        };
        proof {
            assert(s@.workspaces[0].tabs[0].panes.contains_key(0));
            assert(ws_ids(s@.workspaces) =~= seq![0usize]);
        }
        s
    }

    /// The directory a new pane split off the focused one starts in: that of
    /// the focused pane (the empty path if it has no state).
    pub fn split_cwd(&self) -> (p: PathBuf)
        requires
            self.wf(),
        ensures
            p == split_dir(active_tab_of(self@)),
    {
        proof {
            lemma_active_indices(self@);
        }
        let wi = self.active_ws_idx();
        let ti = self.workspaces[wi].active_tab_idx();
        let t = &self.workspaces[wi].tabs[ti];
        match t.panes.get(&t.active_pane) {
            Some(p) => p.cwd.clone(),
            None => {
                let empty = String::new();
                assert(empty@ =~= Seq::<char>::empty());
                path_from_string(empty)
            },
        }
    }

    /// Splits the focused pane of the active tab in direction `dir`; the new
    /// pane (next id of the tab, same directory, git branch `git_branch`)
    /// gets the focus. `None`, with nothing changed, when the layout refuses
    /// the split; otherwise the tab's id and the new pane's id.
    pub fn split_active(&mut self, dir: SplitDirection, git_branch: Option<String>) -> (r:
        Option<(TabId, PaneId)>)
        requires
            old(self).wf(),
            active_tab_of(old(self)@).layout.spec_split(
                active_tab_of(old(self)@).active_pane,
                dir,
                active_tab_of(old(self)@).next_pane_id,
            ) is Some ==> active_tab_of(old(self)@).next_pane_id < usize::MAX,
        ensures
            final(self).wf(),
            ({
                let t = active_tab_of(old(self)@);
                match t.layout.spec_split(t.active_pane, dir, t.next_pane_id) {
                    None => r is None && final(self)@ == old(self)@,
                    Some(nl) => {
                        let np = active_tab_of(final(self)@).panes[t.next_pane_id];
                        &&& r == Some((t.id, t.next_pane_id))
                        &&& fresh_pane(np, t.next_pane_id, np.cwd, git_branch)
                        &&& np.cwd == split_dir(t)
                        &&& final(self)@ == with_active_tab(old(self)@, tab_after_split(t, nl, np))
                    },
                }
            }),
    {
        proof {
            lemma_active_indices(self@);
        }
        let wi = self.active_ws_idx();
        let ti = self.workspaces[wi].active_tab_idx();
        let new_id = self.workspaces[wi].tabs[ti].next_pane_id;
        let active = self.workspaces[wi].tabs[ti].active_pane;
        let tab_id = self.workspaces[wi].tabs[ti].id;
        match self.workspaces[wi].tabs[ti].layout.split(active, dir, new_id) {
            None => None,
            Some(nl) => {
                let cwd = self.split_cwd();
                let mut pane = PaneState::new(new_id, cwd);
                pane.git_branch = git_branch;
                let ghost np = pane;
                proof {
                    let t = old(self)@.workspaces[wi as int].tabs[ti as int];
                    crate::multiplexer::layout::law_split(t.layout, active, dir, new_id);
                    crate::multiplexer::layout::lemma_insert_after_members(t.layout.ids(), active, new_id);
                    assert(!t.layout.ids().contains(new_id));
                }
                self.workspaces[wi].tabs[ti].add_split_pane(nl, pane);
                proof {
                    let t = old(self)@.workspaces[wi as int].tabs[ti as int];
                    let nt = tab_after_split(t, nl, np);
                    lemma_tab_replaced(
                        old(self).workspaces@,
                        self.workspaces@,
                        wi as int,
                        ti as int,
                        self.workspaces@[wi as int].tabs@[ti as int],
                    );
                    assert(self@ =~~= with_tab(old(self)@, wi as int, ti as int, nt));
                    assert forall|q: PaneId| #[trigger] nt.panes.contains_key(q) <==> nt.layout.ids().contains(q) by {
                        crate::multiplexer::layout::lemma_insert_after_members(t.layout.ids(), active, new_id);
                    }
                    assert(tab_wf(nt));
                    lemma_wf_with_tab(old(self)@, wi as int, ti as int, nt);
                    lemma_active_indices(self@);
                    assert(ws_ids(self@.workspaces) =~= ws_ids(old(self)@.workspaces));
                    assert(tab_ids(self@.workspaces[wi as int].tabs) =~= tab_ids(old(self)@.workspaces[wi as int].tabs));
                }
                Some((tab_id, new_id))
            },
        }
    }

    /// The directory a new tab in workspace `ws_id` starts in, when the
    /// focused pane of that workspace's active tab has one.
    pub fn new_tab_cwd(&self, ws_id: WorkspaceId) -> (r: Option<PathBuf>)
        requires
            self.wf(),
        ensures
            r == new_tab_dir(self@, ws_id),
    {
        let ids = self.workspace_id_list();
        match position_of(&ids, ws_id) {
            Some(wi) => {
                proof {
                    lemma_first_pos(ids@, ws_id);
                }
                let tids = self.workspaces[wi].tab_id_list();
                match position_of(&tids, self.workspaces[wi].active_tab) {
                    Some(ti) => {
                        proof {
                            lemma_first_pos(tids@, self@.workspaces[wi as int].active_tab);
                        }
                        let t = &self.workspaces[wi].tabs[ti];
                        match t.panes.get(&t.active_pane) {
                            Some(p) => Some(p.cwd.clone()),
                            None => None,
                        }
                    },
                    None => None,
                }
            },
            None => None,
        }
    }

    /// Makes a new tab (next tab id, named "tab-" and its id) with one pane
    /// in `cwd`, git branch `git_branch` and terminal `emu`; it joins
    /// workspace `ws_id` and becomes active there when that workspace
    /// exists. Returns the new tab's id.
    pub fn new_tab_in(
        &mut self,
        ws_id: WorkspaceId,
        cwd: PathBuf,
        git_branch: Option<String>,
        emu: Option<E>,
    ) -> (r: TabId)
        requires
            old(self).wf(),
            old(self)@.next_tab_id < usize::MAX,
        ensures
            final(self).wf(),
            r == old(self)@.next_tab_id,
            exists|np: PaneState|
                #[trigger] fresh_pane(np, 0, cwd, git_branch) && final(self)@ == after_new_tab(
                    old(self)@,
                    ws_id,
                    single_tab_view(r, "tab-"@ + decimal(r as nat), np, emu),
                ),
    {
        let tab_id = self.next_tab_id;
        self.next_tab_id = self.next_tab_id + 1;
        let mut pane = PaneState::new(0, cwd);
        pane.git_branch = git_branch;
        let ghost np = pane;
        let name = with_number("tab-", tab_id);
        proof {
            reveal_strlit("tab-");
        }
        let tab = Tab::single(tab_id, name, pane, emu);
        let ghost nt = tab@;
        let ids = self.workspace_id_list();
        match position_of(&ids, ws_id) {
            Some(wi) => {
                proof {
                    lemma_first_pos(ids@, ws_id);
                }
                self.workspaces[wi].active_tab = tab_id;
                self.workspaces[wi].tabs.push(tab);
                self.active_workspace = ws_id;
                proof {
                    let w = old(self)@.workspaces[wi as int];
                    let nw = WorkspaceView { tabs: w.tabs.push(nt), active_tab: nt.id, ..w };
                    assert(tab_views(self.workspaces@[wi as int].tabs@) =~= w.tabs.push(nt));
                    assert(workspace_views(self.workspaces@) =~~= workspace_views(
                        old(self).workspaces@,
                    ).update(wi as int, nw));
                }
            },
            None => {},
        }
        proof {
            assert(self@ =~~= after_new_tab(old(self)@, ws_id, nt));
            lemma_wf_after_new_tab(old(self)@, ws_id, nt);
            assert(fresh_pane(np, 0, cwd, git_branch));
        }
        tab_id
    }

    /// Makes a new workspace (next workspace id, named "workspace-" and its
    /// id) holding a new tab "main" (next tab id) with one pane in `cwd`,
    /// git branch `git_branch` and terminal `emu`; it comes last and becomes
    /// active. Returns the ids of the workspace and of the tab.
    pub fn new_workspace(&mut self, cwd: PathBuf, git_branch: Option<String>, emu: Option<E>) -> (r: (
        WorkspaceId,
        TabId,
    ))
        requires
            old(self).wf(),
            old(self)@.next_tab_id < usize::MAX,
            old(self)@.next_workspace_id < usize::MAX,
        ensures
            final(self).wf(),
            r == (old(self)@.next_workspace_id, old(self)@.next_tab_id),
            exists|np: PaneState|
                #[trigger] fresh_pane(np, 0, cwd, git_branch) && final(self)@ == after_new_workspace(
                    old(self)@,
                    single_tab_view(r.1, "main"@, np, emu),
                ),
    {
        let ws_id = self.next_workspace_id;
        let tab_id = self.next_tab_id;
        self.next_workspace_id = self.next_workspace_id + 1;
        self.next_tab_id = self.next_tab_id + 1;
        let mut pane = PaneState::new(0, cwd);
        pane.git_branch = git_branch;
        let ghost np = pane;
        let tab = Tab::single(tab_id, String::from_str("main"), pane, emu);
        let ghost nt = tab@;
        let name = with_number("workspace-", ws_id);
        proof {
            reveal_strlit("workspace-");
        }
        let mut tabs: Vec<Tab<E>> = Vec::new();
        tabs.push(tab);
        let ws = Workspace { id: ws_id, name, tabs, active_tab: tab_id, collapsed: false };
        self.workspaces.push(ws);
        self.active_workspace = ws_id;
        proof {
            assert(tab_views(self.workspaces@.last().tabs@) =~= seq![nt]);
            assert(workspace_views(self.workspaces@) =~~= after_new_workspace(old(self)@, nt).workspaces);
            assert(self@ =~~= after_new_workspace(old(self)@, nt));
            lemma_wf_after_new_workspace(old(self)@, nt);
            assert(fresh_pane(np, 0, cwd, git_branch));
        }
        (ws_id, tab_id)
    }

    /// Records the terminal `emu` of pane `pane_id` in tab `tab_id`, with no
    /// output counted yet; `false`, with nothing changed, when there is no
    /// such pane.
    pub fn attach_emulator(&mut self, tab_id: TabId, pane_id: PaneId, emu: E) -> (attached: bool)
        requires
            old(self).wf(),
        ensures
            final(self).wf(),
            (final(self)@, attached) == after_attach(old(self)@, tab_id, pane_id, emu),
    {
        match self.ws_index_of_tab(tab_id) {
            Some(wi) => {
                proof {
                    let flags = holds_tab(self@.workspaces, tab_id);
                    lemma_first_pos(flags, true);
                    assert(flags[wi as int]);
                }
                let ids = self.workspaces[wi].tab_id_list();
                proof {
                    lemma_first_pos(ids@, tab_id);
                }
                match position_of(&ids, tab_id) {
                    Some(ti) => {
                        proof {
                            lemma_first_pos(ids@, tab_id);
                        }
                        if self.workspaces[wi].tabs[ti].panes.contains_key(&pane_id) {
                            self.workspaces[wi].tabs[ti].attach(pane_id, emu);
                            proof {
                                let t = old(self)@.workspaces[wi as int].tabs[ti as int];
                                let nt = TabView {
                                    emulators: t.emulators.insert(pane_id, emu),
                                    last_output_counts: t.last_output_counts.insert(pane_id, 0),
                                    ..t
                                };
                                lemma_tab_replaced(
                                    old(self).workspaces@,
                                    self.workspaces@,
                                    wi as int,
                                    ti as int,
                                    self.workspaces@[wi as int].tabs@[ti as int],
                                );
                                assert(self@ =~~= with_tab(old(self)@, wi as int, ti as int, nt));
                                lemma_wf_with_tab(old(self)@, wi as int, ti as int, nt);
                            }
                            true
                        } else {
                            false
                        }
                    },
                    None => false,
                }
            },
            None => false,
        }
    }

    /// Index of workspace `ws_id`.
    pub fn ws_index_of(&self, ws_id: WorkspaceId) -> (r: Option<usize>)
        ensures
            r matches Some(i) ==> first_pos(ws_ids(self@.workspaces), ws_id) == Some(i as int)
                && i < self@.workspaces.len(),
            r is None ==> first_pos(ws_ids(self@.workspaces), ws_id) is None,
    {
        let ids = self.workspace_id_list();
        let r = position_of(&ids, ws_id);
        proof {
            lemma_first_pos(ids@, ws_id);
        }
        r
    }

    /// Position of tab `tab_id`: the first workspace that has it, and its
    /// index there.
    pub fn tab_position(&self, tab_id: TabId) -> (r: Option<(usize, usize)>)
        ensures
            r matches Some((wi, ti)) ==> ws_of_tab(self@, tab_id) == Some(wi as int) && first_pos(
                tab_ids(self@.workspaces[wi as int].tabs),
                tab_id,
            ) == Some(ti as int) && wi < self@.workspaces.len() && ti
                < self@.workspaces[wi as int].tabs.len(),
            r is None ==> ws_of_tab(self@, tab_id) is None,
    {
        match self.ws_index_of_tab(tab_id) {
            Some(wi) => {
                proof {
                    let flags = holds_tab(self@.workspaces, tab_id);
                    lemma_first_pos(flags, true);
                    assert(flags[wi as int]);
                }
                let ids = self.workspaces[wi].tab_id_list();
                proof {
                    lemma_first_pos(ids@, tab_id);
                }
                match position_of(&ids, tab_id) {
                    Some(ti) => Some((wi, ti)),
                    None => None,
                }
            },
            None => None,
        }
    }

    /// Makes tab `tab_id` active, and its workspace (the first that has it).
    pub fn select_tab(&mut self, tab_id: TabId)
        requires
            old(self).wf(),
        ensures
            final(self).wf(),
            final(self)@ == match ws_of_tab(old(self)@, tab_id) {
                Some(wi) => SessionView {
                    active_workspace: old(self)@.workspaces[wi].id,
                    ..with_workspace(
                        old(self)@,
                        wi,
                        WorkspaceView { active_tab: tab_id, ..old(self)@.workspaces[wi] },
                    )
                },
                None => old(self)@,
            },
    {
        match self.tab_position(tab_id) {
            Some((wi, _ti)) => {
                self.set_active_tab_at(wi, tab_id);
                let ghost mid = self@;
                assert(mid.workspaces[wi as int].id == self.workspaces@[wi as int].id);
                self.active_workspace = self.workspaces[wi].id;
                proof {
                    assert(self@ =~~= SessionView {
                        active_workspace: old(self)@.workspaces[wi as int].id,
                        ..mid
                    });
                }
            },
            None => {},
        }
    }

    /// Folds or unfolds workspace `ws_id` in the sidebar.
    pub fn toggle_workspace(&mut self, ws_id: WorkspaceId)
        requires
            old(self).wf(),
        ensures
            final(self).wf(),
            final(self)@ == match first_pos(ws_ids(old(self)@.workspaces), ws_id) {
                Some(wi) => with_workspace(
                    old(self)@,
                    wi,
                    WorkspaceView {
                        collapsed: !old(self)@.workspaces[wi].collapsed,
                        ..old(self)@.workspaces[wi]
                    },
                ),
                None => old(self)@,
            },
    {
        match self.ws_index_of(ws_id) {
            Some(wi) => {
                let c = !self.workspaces[wi].collapsed;
                self.workspaces[wi].collapsed = c;
                proof {
                    let nw = WorkspaceView { collapsed: c, ..old(self)@.workspaces[wi as int] };
                    assert(self.workspaces@[wi as int].tabs@ == old(self).workspaces@[wi as int].tabs@);
                    assert(self.workspaces@[wi as int]@ == nw);
                    assert(workspace_views(self.workspaces@) =~= workspace_views(
                        old(self).workspaces@,
                    ).update(wi as int, nw));
                    assert(self@ =~~= with_workspace(old(self)@, wi as int, nw));
                    lemma_wf_with_workspace(old(self)@, wi as int, nw);
                }
            },
            None => {},
        }
    }

    /// Shows or hides the help; showing it abandons any rename under way.
    pub fn toggle_help(&mut self)
        requires
            old(self).wf(),
        ensures
            final(self).wf(),
            final(self)@ == if old(self)@.show_help {
                SessionView { show_help: false, ..old(self)@ }
            } else {
                SessionView {
                    show_help: true,
                    renaming_tab: None,
                    renaming_workspace: None,
                    ..old(self)@
                }
            },
    {
        self.show_help = !self.show_help;
        if self.show_help {
            self.renaming_tab = None;
            self.renaming_workspace = None;
        }
    }

    /// Starts renaming tab `tab_id`, the field holding its current name.
    pub fn start_rename_tab(&mut self, tab_id: TabId)
        requires
            old(self).wf(),
        ensures
            final(self).wf(),
            final(self)@ == (SessionView {
                renaming_tab: Some((tab_id, tab_name_of(old(self)@, tab_id))),
                ..old(self)@
            }),
    {
        let name = match self.tab_position(tab_id) {
            Some((wi, ti)) => self.workspaces[wi].tabs[ti].name.clone(),
            None => String::new(),
        };
        self.renaming_tab = Some((tab_id, name));
    }

    /// The rename field of the tab being renamed now holds `value`.
    pub fn rename_changed(&mut self, value: String)
        requires
            old(self).wf(),
        ensures
            final(self).wf(),
            final(self)@ == match old(self)@.renaming_tab {
                Some((id, _)) => SessionView { renaming_tab: Some((id, value@)), ..old(self)@ },
                None => old(self)@,
            },
    {
        match &self.renaming_tab {
            Some((id, _)) => {
                let id = *id;
                self.renaming_tab = Some((id, value));
            },
            None => {},
        }
    }

    /// Ends the tab rename: the tab takes the typed name without surrounding
    /// white space, or "tab" when nothing is left.
    pub fn commit_rename(&mut self)
        requires
            old(self).wf(),
        ensures
            final(self).wf(),
            final(self)@ == match old(self)@.renaming_tab {
                Some((id, typed)) => with_tab_name(
                    SessionView { renaming_tab: None, ..old(self)@ },
                    id,
                    committed_name(typed, "tab"@),
                ),
                None => old(self)@,
            },
    {
        let pending = self.renaming_tab.take();
        match pending {
            Some((tab_id, typed)) => {
                let name = committed_string(&typed, "tab");
                proof {
                    reveal_strlit("tab");
                }
                let ghost mid = self@;
                assert(mid == SessionView { renaming_tab: None, ..old(self)@ });
                match self.tab_position(tab_id) {
                    Some((wi, ti)) => {
                        self.workspaces[wi].tabs[ti].name = name;
                        proof {
                            let nt = TabView { name: name@, ..mid.workspaces[wi as int].tabs[ti as int] };
                            lemma_tab_replaced(
                                old(self).workspaces@,
                                self.workspaces@,
                                wi as int,
                                ti as int,
                                self.workspaces@[wi as int].tabs@[ti as int],
                            );
                            assert(self@ =~~= with_tab(mid, wi as int, ti as int, nt));
                            lemma_wf_with_tab(mid, wi as int, ti as int, nt);
                        }
                    },
                    None => {},
                }
            },
            None => {},
        }
    }

    /// Abandons the tab rename.
    pub fn cancel_rename(&mut self)
        requires
            old(self).wf(),
        ensures
            final(self).wf(),
            final(self)@ == (SessionView { renaming_tab: None, ..old(self)@ }),
    {
        self.renaming_tab = None;
    }

    /// Starts renaming workspace `ws_id`, the field holding its current name.
    pub fn start_rename_workspace(&mut self, ws_id: WorkspaceId)
        requires
            old(self).wf(),
        ensures
            final(self).wf(),
            final(self)@ == (SessionView {
                renaming_workspace: Some((ws_id, ws_name_of(old(self)@, ws_id))),
                ..old(self)@
            }),
    {
        let name = match self.ws_index_of(ws_id) {
            Some(wi) => self.workspaces[wi].name.clone(),
            None => String::new(),
        };
        self.renaming_workspace = Some((ws_id, name));
    }

    /// The rename field of the workspace being renamed now holds `value`.
    pub fn rename_workspace_changed(&mut self, value: String)
        requires
            old(self).wf(),
        ensures
            final(self).wf(),
            final(self)@ == match old(self)@.renaming_workspace {
                Some((id, _)) => SessionView { renaming_workspace: Some((id, value@)), ..old(self)@ },
                None => old(self)@,
            },
    {
        match &self.renaming_workspace {
            Some((id, _)) => {
                let id = *id;
                self.renaming_workspace = Some((id, value));
            },
            None => {},
        }
    }

    /// Ends the workspace rename: the workspace takes the typed name without
    /// surrounding white space, or "workspace" when nothing is left.
    pub fn commit_rename_workspace(&mut self)
        requires
            old(self).wf(),
        ensures
            final(self).wf(),
            final(self)@ == match old(self)@.renaming_workspace {
                Some((id, typed)) => with_ws_name(
                    SessionView { renaming_workspace: None, ..old(self)@ },
                    id,
                    committed_name(typed, "workspace"@),
                ),
                None => old(self)@,
            },
    {
        let pending = self.renaming_workspace.take();
        match pending {
            Some((ws_id, typed)) => {
                let name = committed_string(&typed, "workspace");
                proof {
                    reveal_strlit("workspace");
                }
                let ghost mid = self@;
                match self.ws_index_of(ws_id) {
                    Some(wi) => {
                        self.workspaces[wi].name = name;
                        proof {
                            let nw = WorkspaceView { name: name@, ..mid.workspaces[wi as int] };
                            assert(self.workspaces@[wi as int].tabs@ == old(self).workspaces@[wi as int].tabs@);
                            assert(self.workspaces@[wi as int]@ == nw);
                            assert(workspace_views(self.workspaces@) =~= mid.workspaces.update(wi as int, nw));
                            assert(self@ =~~= with_workspace(mid, wi as int, nw));
                            lemma_wf_with_workspace(mid, wi as int, nw);
                        }
                    },
                    None => {},
                }
            },
            None => {},
        }
    }

    /// Abandons the workspace rename.
    pub fn cancel_rename_workspace(&mut self)
        requires
            old(self).wf(),
        ensures
            final(self).wf(),
            final(self)@ == (SessionView { renaming_workspace: None, ..old(self)@ }),
    {
        self.renaming_workspace = None;
    }

    /// The terminal of pane `pid` of tab `ti` of workspace `wi` reports
    /// `count` chunks of output so far: when the count moved, it is recorded
    /// and the pane had output.
    pub fn record_output(&mut self, wi: usize, ti: usize, pid: PaneId, count: u64)
        requires
            old(self).wf(),
            wi < old(self)@.workspaces.len(),
            ti < old(self)@.workspaces[wi as int].tabs.len(),
            old(self)@.workspaces[wi as int].tabs[ti as int].emulators.contains_key(pid),
        ensures
            final(self).wf(),
            ({
                let t = old(self)@.workspaces[wi as int].tabs[ti as int];
                let t2 = final(self)@.workspaces[wi as int].tabs[ti as int];
                &&& final(self)@ == with_tab(old(self)@, wi as int, ti as int, t2)
                &&& count == last_count(t, pid) ==> t2 == t
                &&& count != last_count(t, pid) ==> t2 == (TabView {
                    panes: t.panes.insert(pid, t2.panes[pid]),
                    last_output_counts: t.last_output_counts.insert(pid, count),
                    ..t
                }) && output_step(t.panes[pid], t2.panes[pid])
            }),
    {
        proof {
            lemma_tab_of_wf(self@, wi as int, ti as int);
        }
        self.workspaces[wi].tabs[ti].note_output_count(pid, count);
        proof {
            let t = old(self)@.workspaces[wi as int].tabs[ti as int];
            let nt = self.workspaces@[wi as int].tabs@[ti as int]@;
            lemma_tab_replaced(
                old(self).workspaces@,
                self.workspaces@,
                wi as int,
                ti as int,
                self.workspaces@[wi as int].tabs@[ti as int],
            );
            assert(self@ =~~= with_tab(old(self)@, wi as int, ti as int, nt));
            if count != last_count(t, pid) {
                assert forall|q: PaneId| #[trigger] nt.panes.contains_key(q) implies nt.panes[q].id == q by {
                    if q != pid {
                        assert(nt.panes[q] == t.panes[q]);
                    }
                }
                assert(nt.panes.dom() =~= t.panes.dom());
            }
            assert(tab_wf(nt));
            lemma_wf_with_tab(old(self)@, wi as int, ti as int, nt);
        }
    }

    /// Applies the terminal event `e` to pane `pid` of tab `ti` of workspace
    /// `wi`, when that tab has such a pane.
    pub fn apply_pane_event(&mut self, wi: usize, ti: usize, pid: PaneId, e: TermEvent)
        requires
            old(self).wf(),
            wi < old(self)@.workspaces.len(),
            ti < old(self)@.workspaces[wi as int].tabs.len(),
        ensures
            final(self).wf(),
            ({
                let t = old(self)@.workspaces[wi as int].tabs[ti as int];
                &&& t.panes.contains_key(pid) ==> final(self)@ == with_tab(
                    old(self)@,
                    wi as int,
                    ti as int,
                    TabView {
                        panes: t.panes.insert(pid, pane_after_event(t.panes[pid], e)),
                        ..t
                    },
                )
                &&& !t.panes.contains_key(pid) ==> final(self)@ == old(self)@
            }),
    {
        proof {
            lemma_tab_of_wf(self@, wi as int, ti as int);
        }
        self.workspaces[wi].tabs[ti].apply_event(pid, e);
        proof {
            let t = old(self)@.workspaces[wi as int].tabs[ti as int];
            let nt = self.workspaces@[wi as int].tabs@[ti as int]@;
            lemma_tab_replaced(
                old(self).workspaces@,
                self.workspaces@,
                wi as int,
                ti as int,
                self.workspaces@[wi as int].tabs@[ti as int],
            );
            assert(self@ =~~= with_tab(old(self)@, wi as int, ti as int, nt));
            if t.panes.contains_key(pid) {
                assert(nt.panes.dom() =~= t.panes.dom());
                assert forall|q: PaneId| #[trigger] nt.panes.contains_key(q) implies nt.panes[q].id == q by {
                    if q != pid {
                        assert(nt.panes[q] == t.panes[q]);
                    }
                }
            } else {
                lemma_with_same_tab(old(self)@, wi as int, ti as int);
            }
            assert(tab_wf(nt));
            lemma_wf_with_tab(old(self)@, wi as int, ti as int, nt);
        }
    }

    /// The program of pane `pid` of tab `ti` of workspace `wi` has ended: a
    /// pane not yet dead dies, and `true` says it just did.
    pub fn mark_pane_exited(&mut self, wi: usize, ti: usize, pid: PaneId) -> (just_exited: bool)
        requires
            old(self).wf(),
            wi < old(self)@.workspaces.len(),
            ti < old(self)@.workspaces[wi as int].tabs.len(),
        ensures
            final(self).wf(),
            ({
                let t = old(self)@.workspaces[wi as int].tabs[ti as int];
                &&& just_exited == (t.panes.contains_key(pid) && t.panes[pid].status
                    != PaneStatus::Dead)
                &&& just_exited ==> final(self)@ == with_tab(
                    old(self)@,
                    wi as int,
                    ti as int,
                    TabView {
                        panes: t.panes.insert(pid, PaneState { status: PaneStatus::Dead, ..t.panes[pid] }),
                        ..t
                    },
                )
                &&& !just_exited ==> final(self)@ == old(self)@
            }),
    {
        proof {
            lemma_tab_of_wf(self@, wi as int, ti as int);
        }
        let r = self.workspaces[wi].tabs[ti].mark_exited(pid);
        proof {
            let t = old(self)@.workspaces[wi as int].tabs[ti as int];
            let nt = self.workspaces@[wi as int].tabs@[ti as int]@;
            lemma_tab_replaced(
                old(self).workspaces@,
                self.workspaces@,
                wi as int,
                ti as int,
                self.workspaces@[wi as int].tabs@[ti as int],
            );
            assert(self@ =~~= with_tab(old(self)@, wi as int, ti as int, nt));
            if r {
                assert(nt.panes.dom() =~= t.panes.dom());
                assert forall|q: PaneId| #[trigger] nt.panes.contains_key(q) implies nt.panes[q].id == q by {
                    if q != pid {
                        assert(nt.panes[q] == t.panes[q]);
                    }
                }
            } else {
                lemma_with_same_tab(old(self)@, wi as int, ti as int);
            }
            assert(tab_wf(nt));
            lemma_wf_with_tab(old(self)@, wi as int, ti as int, nt);
        }
        r
    }

    /// Makes every running pane that had no output for the detector's idle
    /// time wait, in every tab of every workspace.
    pub fn check_idle_all(&mut self, detector: &NotificationDetector)
        requires
            old(self).wf(),
        ensures
            final(self).wf(),
            session_idle_checked(old(self)@, final(self)@),
            forall|i: int, j: int|
                0 <= i < old(self)@.workspaces.len() && 0 <= j < old(self)@.workspaces[i].tabs.len()
                    ==> idle_forced(
                    old(self)@.workspaces[i].tabs[j],
                    #[trigger] final(self)@.workspaces[i].tabs[j],
                    nanos_of(detector.idle_timeout()),
                ),
    {
        let ghost th = nanos_of(detector.idle_timeout());
        let mut wi: usize = 0;
        proof {
            assert forall|i: int, j: int|
                0 <= i < self@.workspaces.len() && 0 <= j < self@.workspaces[i].tabs.len() implies tab_idle_checked(
                self@.workspaces[i].tabs[j],
                #[trigger] self@.workspaces[i].tabs[j],
            ) by {
                let t = self@.workspaces[i].tabs[j];
                assert(t.panes.dom() =~= t.panes.dom());
            }
        }
        while wi < self.workspaces.len()
            invariant
                self.wf(),
                th == nanos_of(detector.idle_timeout()),
                session_idle_checked(old(self)@, self@),
                forall|i: int, j: int|
                    0 <= i < wi && i < old(self)@.workspaces.len() && 0 <= j
                        < old(self)@.workspaces[i].tabs.len() ==> idle_forced(
                        old(self)@.workspaces[i].tabs[j],
                        #[trigger] self@.workspaces[i].tabs[j],
                        th,
                    ),
                forall|i: int, j: int|
                    wi <= i < old(self)@.workspaces.len() && 0 <= j < old(self)@.workspaces[i].tabs.len()
                        ==> #[trigger] self@.workspaces[i].tabs[j] == old(self)@.workspaces[i].tabs[j],
            decreases self@.workspaces.len() - wi,
        {
            let mut ti: usize = 0;
            while ti < self.workspaces[wi].tabs.len()
                invariant
                    wi < self@.workspaces.len(),
                    self.wf(),
                    th == nanos_of(detector.idle_timeout()),
                    session_idle_checked(old(self)@, self@),
                    forall|i: int, j: int|
                        0 <= i < old(self)@.workspaces.len() && 0 <= j < old(self)@.workspaces[i].tabs.len()
                            && (i < wi || (i == wi && j < ti)) ==> idle_forced(
                            old(self)@.workspaces[i].tabs[j],
                            #[trigger] self@.workspaces[i].tabs[j],
                            th,
                        ),
                    forall|i: int, j: int|
                        0 <= i < old(self)@.workspaces.len() && 0 <= j < old(self)@.workspaces[i].tabs.len()
                            && (i > wi || (i == wi && j >= ti)) ==> #[trigger] self@.workspaces[i].tabs[j]
                            == old(self)@.workspaces[i].tabs[j],
                decreases self@.workspaces[wi as int].tabs.len() - ti,
            {
                let ghost before = self@;
                let ghost before_ws = self.workspaces@;
                proof {
                    lemma_tab_of_wf(self@, wi as int, ti as int);
                }
                self.workspaces[wi].tabs[ti].check_idle(detector);
                proof {
                    let t = before.workspaces[wi as int].tabs[ti as int];
                    let nt = self.workspaces@[wi as int].tabs@[ti as int]@;
                    assert(t == old(self)@.workspaces[wi as int].tabs[ti as int]);
                    lemma_tab_replaced(
                        before_ws,
                        self.workspaces@,
                        wi as int,
                        ti as int,
                        self.workspaces@[wi as int].tabs@[ti as int],
                    );
                    assert(self@ =~~= with_tab(before, wi as int, ti as int, nt));
                    lemma_tab_idle_wf(t, nt);
                    lemma_wf_with_tab(before, wi as int, ti as int, nt);
                    lemma_tab_idle_chain(old(self)@.workspaces[wi as int].tabs[ti as int], t, nt);
                    assert forall|i: int, j: int|
                        0 <= i < old(self)@.workspaces.len() && 0 <= j < old(self)@.workspaces[i].tabs.len()
                        implies tab_idle_checked(
                        old(self)@.workspaces[i].tabs[j],
                        #[trigger] self@.workspaces[i].tabs[j],
                    ) by {
                        if i != wi || j != ti {
                            assert(self@.workspaces[i].tabs[j] == before.workspaces[i].tabs[j]);
                        }
                    }
                    assert forall|i: int, j: int|
                        0 <= i < old(self)@.workspaces.len() && 0 <= j < old(self)@.workspaces[i].tabs.len()
                            && (i < wi || (i == wi && j < ti + 1)) implies idle_forced(
                        old(self)@.workspaces[i].tabs[j],
                        #[trigger] self@.workspaces[i].tabs[j],
                        th,
                    ) by {
                        if i != wi || j != ti {
                            assert(self@.workspaces[i].tabs[j] == before.workspaces[i].tabs[j]);
                        }
                    }
                    assert forall|i: int, j: int|
                        0 <= i < old(self)@.workspaces.len() && 0 <= j < old(self)@.workspaces[i].tabs.len()
                            && (i > wi || (i == wi && j >= ti + 1)) implies #[trigger] self@.workspaces[i].tabs[j]
                        == old(self)@.workspaces[i].tabs[j] by {
                        assert(self@.workspaces[i].tabs[j] == before.workspaces[i].tabs[j]);
                    }
                }
                ti = ti + 1;
            }
            wi = wi + 1;
        }
    }

    /// Records the git branch of pane `pane_id`, in the first tab (in
    /// workspace order) that has such a pane.
    pub fn set_git_branch(&mut self, pane_id: PaneId, branch: Option<String>)
        requires
            old(self).wf(),
        ensures
            final(self).wf(),
            final(self)@ == with_git_branch(old(self)@, pane_id, branch),
    {
        let ghost flags = holds_pane_anywhere(self@.workspaces, pane_id);
        let mut wi: usize = 0;
        while wi < self.workspaces.len()
            invariant
                self@ == old(self)@,
                self.wf(),
                wi <= self@.workspaces.len(),
                flags == holds_pane_anywhere(self@.workspaces, pane_id),
                forall|j: int| 0 <= j < wi ==> flags[j] != true,
            decreases self@.workspaces.len() - wi,
        {
            match self.tab_index_of_pane(wi, pane_id) {
                Some(ti) => {
                    proof {
                        let hp = holds_pane(self@.workspaces[wi as int].tabs, pane_id);
                        lemma_first_pos(hp, true);
                        assert(hp[ti as int]);
                        assert(hp.contains(true));
                        crate::multiplexer::workspace::lemma_first_pos_at(flags, true, wi as int);
                        lemma_tab_of_wf(self@, wi as int, ti as int);
                    }
                    let ghost before_ws = self.workspaces@;
                    self.workspaces[wi].tabs[ti].set_branch(pane_id, branch);
                    proof {
                        let t = old(self)@.workspaces[wi as int].tabs[ti as int];
                        let nt = self.workspaces@[wi as int].tabs@[ti as int]@;
                        lemma_tab_replaced(
                            before_ws,
                            self.workspaces@,
                            wi as int,
                            ti as int,
                            self.workspaces@[wi as int].tabs@[ti as int],
                        );
                        assert(self@ =~~= with_tab(old(self)@, wi as int, ti as int, nt));
                        assert(nt.panes.dom() =~= t.panes.dom());
                        assert forall|q: PaneId| #[trigger] nt.panes.contains_key(q) implies nt.panes[q].id == q by {
                            if q != pane_id {
                                assert(nt.panes[q] == t.panes[q]);
                            }
                        }
                        lemma_wf_with_tab(old(self)@, wi as int, ti as int, nt);
                    }
                    return;
                },
                None => {
                    proof {
                        let hp = holds_pane(self@.workspaces[wi as int].tabs, pane_id);
                        lemma_first_pos(hp, true);
                        assert(flags[wi as int] == hp.contains(true));
                    }
                },
            }
            wi = wi + 1;
        }
        proof {
            lemma_first_pos(flags, true);
            if flags.contains(true) {
                let j = choose|j: int| 0 <= j < flags.len() && flags[j] == true;
                assert(flags[j] != true);
            }
        }
    }

    /// Starts a selection in pane `pane_id` of the active tab: the pane gets
    /// the focus, every selection of the tab is cleared, and when the cell
    /// under the pointer is known the pane's selection starts and ends there.
    pub fn begin_selection(&mut self, pane_id: PaneId, cell: Option<(usize, usize)>)
        requires
            old(self).wf(),
        ensures
            final(self).wf(),
            final(self)@ == (SessionView {
                is_selecting: Some(pane_id),
                ..with_active_tab(
                    old(self)@,
                    TabView {
                        active_pane: pane_id,
                        panes: selection_started(active_tab_of(old(self)@).panes, pane_id, cell),
                        ..active_tab_of(old(self)@)
                    },
                )
            }),
    {
        proof {
            lemma_active_indices(self@);
        }
        let wi = self.active_ws_idx();
        let ti = self.workspaces[wi].active_tab_idx();
        self.set_active_pane_at(wi, ti, pane_id);
        let ghost mid = self@;
        let ghost mid_ws = self.workspaces@;
        proof {
            assert(self@.workspaces.len() == self.workspaces@.len());
            assert(self@.workspaces[wi as int].tabs.len() == self.workspaces@[wi as int].tabs@.len());
            lemma_tab_of_wf(self@, wi as int, ti as int);
            assert(self.workspaces@[wi as int].tabs@[ti as int]@ == self@.workspaces[wi as int].tabs[ti as int]);
        }
        self.workspaces[wi].tabs[ti].start_selection(pane_id, cell);
        proof {
            let t = mid.workspaces[wi as int].tabs[ti as int];
            let nt = self.workspaces@[wi as int].tabs@[ti as int]@;
            lemma_tab_replaced(
                mid_ws,
                self.workspaces@,
                wi as int,
                ti as int,
                self.workspaces@[wi as int].tabs@[ti as int],
            );
            assert(self@ =~~= with_tab(mid, wi as int, ti as int, nt));
            assert(nt.panes.dom() =~= t.panes.dom());
            assert forall|q: PaneId| #[trigger] nt.panes.contains_key(q) implies nt.panes[q].id == q by {}
            lemma_wf_with_tab(mid, wi as int, ti as int, nt);
            let o = old(self)@;
            let t0 = o.workspaces[wi as int].tabs[ti as int];
            assert(nt == TabView {
                active_pane: pane_id,
                panes: selection_started(t0.panes, pane_id, cell),
                ..t0
            });
            lemma_with_tab_twice(o, wi as int, ti as int, TabView { active_pane: pane_id, ..t0 }, nt);
            assert(with_tab(mid, wi as int, ti as int, nt) =~~= with_active_tab(
                o,
                TabView {
                    active_pane: pane_id,
                    panes: selection_started(active_tab_of(o).panes, pane_id, cell),
                    ..active_tab_of(o)
                },
            ));
        }
        self.is_selecting = Some(pane_id);
    }

    /// While a selection is being dragged in a pane of the active tab that
    /// has one, its end moves to `end`.
    pub fn drag_selection(&mut self, end: (usize, usize))
        requires
            old(self).wf(),
        ensures
            final(self).wf(),
            final(self)@ == match old(self)@.is_selecting {
                Some(pid) => {
                    let t = active_tab_of(old(self)@);
                    if t.panes.contains_key(pid) && t.panes[pid].selection is Some {
                        with_active_tab(
                            old(self)@,
                            TabView {
                                panes: t.panes.insert(
                                    pid,
                                    PaneState {
                                        selection: Some((t.panes[pid].selection.unwrap().0, end)),
                                        ..t.panes[pid]
                                    },
                                ),
                                ..t
                            },
                        )
                    } else {
                        old(self)@
                    }
                },
                None => old(self)@,
            },
    {
        match self.is_selecting {
            Some(pid) => {
                proof {
                    lemma_active_indices(self@);
                }
                let wi = self.active_ws_idx();
                let ti = self.workspaces[wi].active_tab_idx();
                let ghost before_ws = self.workspaces@;
                let moved = self.workspaces[wi].tabs[ti].move_selection_end(pid, end);
                proof {
                    let t = old(self)@.workspaces[wi as int].tabs[ti as int];
                    let nt = self.workspaces@[wi as int].tabs@[ti as int]@;
                    lemma_tab_replaced(
                        before_ws,
                        self.workspaces@,
                        wi as int,
                        ti as int,
                        self.workspaces@[wi as int].tabs@[ti as int],
                    );
                    assert(self@ =~~= with_tab(old(self)@, wi as int, ti as int, nt));
                    if moved {
                        assert(nt.panes.dom() =~= t.panes.dom());
                        assert forall|q: PaneId| #[trigger] nt.panes.contains_key(q) implies nt.panes[q].id
                            == q by {
                            if q != pid {
                                assert(nt.panes[q] == t.panes[q]);
                            }
                        }
                    } else {
                        lemma_with_same_tab(old(self)@, wi as int, ti as int);
                    }
                    assert(tab_wf(nt));
                    lemma_wf_with_tab(old(self)@, wi as int, ti as int, nt);
                }
            },
            None => {},
        }
    }

    /// Ends the selection drag; returns the selection of the focused pane of
    /// the active tab, whose text is to be copied.
    pub fn end_selection(&mut self) -> (r: Option<Selection>)
        requires
            old(self).wf(),
        ensures
            final(self).wf(),
            final(self)@ == (SessionView { is_selecting: None, ..old(self)@ }),
            r == match focused_pane(active_tab_of(old(self)@)) {
                Some(p) => p.selection,
                None => None,
            },
    {
        self.is_selecting = None;
        proof {
            lemma_active_indices(self@);
        }
        let wi = self.active_ws_idx();
        let ti = self.workspaces[wi].active_tab_idx();
        let t = &self.workspaces[wi].tabs[ti];
        match t.panes.get(&t.active_pane) {
            Some(p) => p.selection,
            None => None,
        }
    }

    /// The pane whose selection is being dragged.
    pub fn selecting_pane(&self) -> (r: Option<PaneId>)
        ensures
            r == self@.is_selecting,
    {
        self.is_selecting
    }

    /// Ratio (thousandths) of the split of the active tab identified by `divider_id`.
    pub fn active_ratio(&self, divider_id: PaneId) -> (r: Option<u32>)
        requires
            self.wf(),
        ensures
            r == active_tab_of(self@).layout.spec_get_ratio(divider_id),
    {
        proof {
            lemma_active_indices(self@);
        }
        let wi = self.active_ws_idx();
        let ti = self.workspaces[wi].active_tab_idx();
        self.workspaces[wi].tabs[ti].layout.get_ratio(divider_id)
    }

    /// Sets the ratio of the split of the active tab identified by
    /// `divider_id` (clamped to 100 … 900 thousandths).
    pub fn set_active_ratio(&mut self, divider_id: PaneId, ratio: u32)
        requires
            old(self).wf(),
        ensures
            final(self).wf(),
            final(self)@ == with_active_tab(
                old(self)@,
                TabView {
                    layout: active_tab_of(old(self)@).layout.spec_set_ratio(divider_id, ratio),
                    ..active_tab_of(old(self)@)
                },
            ),
    {
        proof {
            lemma_active_indices(self@);
        }
        let wi = self.active_ws_idx();
        let ti = self.workspaces[wi].active_tab_idx();
        let ghost before_ws = self.workspaces@;
        self.workspaces[wi].tabs[ti].layout.set_ratio(divider_id, ratio);
        proof {
            let t = old(self)@.workspaces[wi as int].tabs[ti as int];
            let nt = self.workspaces@[wi as int].tabs@[ti as int]@;
            crate::multiplexer::layout::law_set_ratio_then_get(t.layout, divider_id, ratio);
            lemma_tab_replaced(
                before_ws,
                self.workspaces@,
                wi as int,
                ti as int,
                self.workspaces@[wi as int].tabs@[ti as int],
            );
            assert(self@ =~~= with_tab(old(self)@, wi as int, ti as int, nt));
            lemma_wf_with_tab(old(self)@, wi as int, ti as int, nt);
        }
    }

    /// The workspaces, in order.
    pub fn workspaces(&self) -> (r: &Vec<Workspace<E>>)
        ensures
            workspace_views(r@) == self@.workspaces,
    {
        &self.workspaces
    }

    /// The active tab of the active workspace.
    pub fn active_tab(&self) -> (r: &Tab<E>)
        requires
            self.wf(),
        ensures
            r@ == active_tab_of(self@),
    {
        proof {
            lemma_active_indices(self@);
        }
        let wi = self.active_ws_idx();
        let ti = self.workspaces[wi].active_tab_idx();
        &self.workspaces[wi].tabs[ti]
    }

    /// Id of the active workspace.
    pub fn active_workspace(&self) -> (r: WorkspaceId)
        ensures
            r == self@.active_workspace,
    {
        self.active_workspace
    }

    /// The id the next workspace will take.
    pub fn next_workspace_id(&self) -> (r: usize)
        ensures
            r == self@.next_workspace_id,
    {
        self.next_workspace_id
    }

    /// The id the next tab will take.
    pub fn next_tab_id(&self) -> (r: usize)
        ensures
            r == self@.next_tab_id,
    {
        self.next_tab_id
    }

    /// Whether the help is shown.
    pub fn show_help(&self) -> (r: bool)
        ensures
            r == self@.show_help,
    {
        self.show_help
    }

    /// The tab rename under way: the tab and the text typed so far.
    pub fn renaming_tab(&self) -> (r: &Option<(TabId, String)>)
        ensures
            rename_view(*r) == self@.renaming_tab,
    {
        &self.renaming_tab
    }

    /// The workspace rename under way: the workspace and the text typed so far.
    pub fn renaming_workspace(&self) -> (r: &Option<(WorkspaceId, String)>)
        ensures
            rename_view(*r) == self@.renaming_workspace,
    {
        &self.renaming_workspace
    }

    /// The window title.
    pub fn title(&self) -> (r: String)
        requires
            self.wf(),
        ensures
            r@ == title_of(self@),
    {
        proof {
            lemma_active_indices(self@);
            reveal_strlit("default");
            reveal_strlit("terminal++ — ");
            reveal_strlit(" — ");
        }
        let mut out = chars_of("terminal++ — ");
        match self.ws_index_of(self.active_workspace) {
            Some(i) => append_chars(&mut out, self.workspaces[i].name.as_str()),
            None => append_chars(&mut out, "default"),
        }
        append_chars(&mut out, " — ");
        let t = self.active_tab();
        append_chars(&mut out, t.name.as_str());
        let term_len: usize = match t.panes.get(&t.active_pane) {
            Some(p) => match &p.terminal_title {
                Some(x) => x.as_str().unicode_len(),
                None => 0,
            },
            None => 0,
        };
        if term_len > 0 {
            append_chars(&mut out, " — ");
            match t.panes.get(&t.active_pane) {
                Some(p) => match &p.terminal_title {
                    Some(x) => append_chars(&mut out, x.as_str()),
                    None => {},
                },
                None => {},
            }
        }
        assert(out@ =~= title_of(self@));
        string_of(&out)
    }

    /// What the sidebar shows: each workspace with its tabs.
    pub fn sidebar_entries(&self) -> (v: Vec<WorkspaceEntry>)
        ensures
            v@.len() == self@.workspaces.len(),
            forall|i: int| 0 <= i < v@.len() ==> shows_workspace(#[trigger] v@[i], self@.workspaces[i]),
    {
        let mut v: Vec<WorkspaceEntry> = Vec::new();
        let mut i: usize = 0;
        while i < self.workspaces.len()
            invariant
                i <= self@.workspaces.len(),
                v@.len() == i,
                forall|k: int| 0 <= k < i ==> shows_workspace(#[trigger] v@[k], self@.workspaces[k]),
            decreases self@.workspaces.len() - i,
        {
            let w = &self.workspaces[i];
            let mut tabs: Vec<TabEntry> = Vec::new();
            let mut j: usize = 0;
            while j < w.tabs.len()
                invariant
                    i < self@.workspaces.len(),
                    w@ == self@.workspaces[i as int],
                    j <= w@.tabs.len(),
                    tabs@.len() == j,
                    forall|k: int| 0 <= k < j ==> shows_tab(#[trigger] tabs@[k], w@.tabs[k]),
                decreases w@.tabs.len() - j,
            {
                tabs.push(tab_entry(&w.tabs[j]));
                j = j + 1;
            }
            v.push(
                WorkspaceEntry {
                    id: w.id,
                    name: w.name.clone(),
                    tabs,
                    active_tab_id: w.active_tab,
                    collapsed: w.collapsed,
                },
            );
            i = i + 1;
        }
        v
    }
}

/// Moving the focus forward and then back (or back and then forward) among
/// distinct ids returns to the id one started from, and never leaves the ids.
pub proof fn law_cycle_round_trip(ids: Seq<usize>, x: usize)
    requires
        ids.no_duplicates(),
        ids.contains(x),
    ensures
        ids.contains(cycle_next(ids, x)),
        ids.contains(cycle_prev(ids, x)),
        cycle_prev(ids, cycle_next(ids, x)) == x,
        cycle_next(ids, cycle_prev(ids, x)) == x,
{
    let n = ids.len() as int;
    lemma_first_pos(ids, x);
    let p = first_pos(ids, x).unwrap();
    let q = (p + 1) % n;
    let r = (p + n - 1) % n;
    assert(0 <= q < n && 0 <= r < n) by {
        vstd::arithmetic::div_mod::lemma_mod_bound(p + 1, n);
        vstd::arithmetic::div_mod::lemma_mod_bound(p + n - 1, n);
    }
    assert(ids.contains(ids[q]));
    assert(ids.contains(ids[r]));
    lemma_distinct_first_pos(ids, q);
    lemma_distinct_first_pos(ids, r);
    if p + 1 < n {
        vstd::arithmetic::div_mod::lemma_small_mod((p + 1) as nat, n as nat);
        vstd::arithmetic::div_mod::lemma_small_mod((p + 1 + n - 1 - n) as nat, n as nat);
        vstd::arithmetic::div_mod::lemma_mod_add_multiples_vanish(p, n);
    } else {
        vstd::arithmetic::div_mod::lemma_mod_self_0(n);
        vstd::arithmetic::div_mod::lemma_small_mod((n - 1) as nat, n as nat);
    }
    if p >= 1 {
        vstd::arithmetic::div_mod::lemma_mod_add_multiples_vanish(p - 1, n);
        vstd::arithmetic::div_mod::lemma_small_mod((p - 1) as nat, n as nat);
        vstd::arithmetic::div_mod::lemma_small_mod(p as nat, n as nat);
    } else {
        vstd::arithmetic::div_mod::lemma_small_mod((n - 1) as nat, n as nat);
        vstd::arithmetic::div_mod::lemma_mod_self_0(n);
    }
}

/// In a sequence of distinct ids, the first position of the id at `i` is `i`.
pub proof fn lemma_distinct_first_pos(ids: Seq<usize>, i: int)
    requires
        ids.no_duplicates(),
        0 <= i < ids.len(),
    ensures
        first_pos(ids, ids[i]) == Some(i),
{
    crate::multiplexer::workspace::lemma_first_pos_at(ids, ids[i], i);
}

/// In a well-formed session, closing a pane ends the program exactly when
/// it is the only pane of the only tab of the only workspace; otherwise the
/// session stays well formed.
pub proof fn law_quit_only_on_last_pane<E>(s: SessionView<E>, wi: int, ti: int, p: PaneId)
    requires
        session_wf(s),
        0 <= wi < s.workspaces.len(),
        0 <= ti < s.workspaces[wi].tabs.len(),
    ensures
        after_close_pane(s, wi, ti, p).1 <==> (s.workspaces.len() == 1 && s.workspaces[wi].tabs.len()
            == 1 && s.workspaces[wi].tabs[ti].layout == Layout::Leaf(p)),
        session_wf(after_close_pane(s, wi, ti, p).0),
{
    let t = s.workspaces[wi].tabs[ti];
    crate::multiplexer::layout::law_remove(t.layout, p);
    match t.layout.spec_remove(p) {
        Some(nl) => {
            let nt = tab_without_pane(t, p, nl);
            crate::multiplexer::layout::lemma_first_pane_is_first_id(nl);
            assert(tab_wf(nt));
            lemma_wf_with_tab(s, wi, ti, nt);
        },
        None => {
            if !removal_quits(s, wi) {
                lemma_wf_without_tab(s, wi, ti);
            }
        },
    }
}

/// Closing a pane that shares its tab with others takes exactly that pane
/// out: its state, terminal and output counter go, every other pane stays
/// as it was, and the tab and every other tab keep their place.
pub proof fn law_close_pane_removes_only_it<E>(s: SessionView<E>, wi: int, ti: int, p: PaneId)
    requires
        session_wf(s),
        0 <= wi < s.workspaces.len(),
        0 <= ti < s.workspaces[wi].tabs.len(),
        s.workspaces[wi].tabs[ti].layout.ids().contains(p),
        s.workspaces[wi].tabs[ti].layout.ids().len() >= 2,
    ensures
        !after_close_pane(s, wi, ti, p).1,
        ({
            let s2 = after_close_pane(s, wi, ti, p).0;
            let t = s.workspaces[wi].tabs[ti];
            let t2 = s2.workspaces[wi].tabs[ti];
            &&& s2.workspaces.len() == s.workspaces.len()
            &&& s2.workspaces[wi].tabs.len() == s.workspaces[wi].tabs.len()
            &&& !t2.panes.contains_key(p)
            &&& !t2.emulators.contains_key(p)
            &&& !t2.layout.ids().contains(p)
            &&& forall|q: PaneId| q != p && t.panes.contains_key(q) ==> #[trigger] t2.panes.contains_key(q)
                && t2.panes[q] == t.panes[q]
            &&& t2.layout.ids().contains(t2.active_pane)
            &&& forall|i: int, j: int|
                0 <= i < s.workspaces.len() && 0 <= j < s.workspaces[i].tabs.len() && (i != wi || j
                    != ti) ==> #[trigger] s2.workspaces[i].tabs[j] == s.workspaces[i].tabs[j]
        }),
{
    let t = s.workspaces[wi].tabs[ti];
    crate::multiplexer::layout::law_remove(t.layout, p);
    if t.layout == Layout::Leaf(p) {
        assert(t.layout.ids() =~= seq![p]);
    }
    let nl = t.layout.spec_remove(p).unwrap();
    crate::multiplexer::layout::lemma_first_pane_is_first_id(nl);
    assert(nl.ids().contains(nl.ids()[0]));
}

/// Splitting the focused pane and then closing the new pane (which has the
/// focus) gives the tab back its layout, its panes, their terminals and
/// their output counters.
pub proof fn law_split_then_close_restores<E>(
    s: SessionView<E>,
    dir: SplitDirection,
    np: PaneState,
)
    requires
        session_wf(s),
        active_tab_of(s).next_pane_id < usize::MAX,
        active_tab_of(s).layout.spec_split(
            active_tab_of(s).active_pane,
            dir,
            active_tab_of(s).next_pane_id,
        ) is Some,
        np.id == active_tab_of(s).next_pane_id,
    ensures
        ({
            let t = active_tab_of(s);
            let nl = t.layout.spec_split(t.active_pane, dir, t.next_pane_id).unwrap();
            let s2 = with_active_tab(s, tab_after_split(t, nl, np));
            let wi = active_ws_index(s);
            let ti = active_tab_index(s.workspaces[wi]);
            let s3 = after_close_pane(s2, wi, ti, t.next_pane_id).0;
            let t3 = s3.workspaces[wi].tabs[ti];
            &&& !after_close_pane(s2, wi, ti, t.next_pane_id).1
            &&& t3.layout == t.layout
            &&& t3.panes == t.panes
            &&& t3.emulators == t.emulators
            &&& t3.last_output_counts == t.last_output_counts
            &&& t3.next_pane_id == t.next_pane_id + 1
        }),
{
    lemma_active_indices(s);
    let t = active_tab_of(s);
    let new_id = t.next_pane_id;
    let nl = t.layout.spec_split(t.active_pane, dir, new_id).unwrap();
    assert(!t.layout.ids().contains(new_id));
    crate::multiplexer::layout::law_split_then_remove_restores(t.layout, t.active_pane, dir, new_id);
    crate::multiplexer::layout::law_split(t.layout, t.active_pane, dir, new_id);
    let wi = active_ws_index(s);
    let ti = active_tab_index(s.workspaces[wi]);
    let t2 = tab_after_split(t, nl, np);
    let s2 = with_active_tab(s, t2);
    assert(s2.workspaces[wi].tabs[ti] == t2);
    assert(nl.spec_remove(new_id) == Some(t.layout));
    assert(!t.panes.contains_key(new_id));
    assert(!t.emulators.contains_key(new_id));
    assert(!t.last_output_counts.contains_key(new_id));
    let t3 = tab_without_pane(t2, new_id, t.layout);
    assert(t3.panes =~= t.panes);
    assert(t3.emulators =~= t.emulators);
    assert(t3.last_output_counts =~= t.last_output_counts);
}

/// A new tab takes an id that no tab of the session has, and the session
/// stays well formed.
pub proof fn law_new_tab_id_is_fresh<E>(s: SessionView<E>, ws_id: WorkspaceId, nt: TabView<E>)
    requires
        session_wf(s),
        tab_wf(nt),
        nt.id == s.next_tab_id,
        s.next_tab_id < usize::MAX,
    ensures
        forall|i: int, j: int|
            0 <= i < s.workspaces.len() && 0 <= j < s.workspaces[i].tabs.len() ==> #[trigger] s.workspaces[i].tabs[j].id
                != nt.id,
        session_wf(after_new_tab(s, ws_id, nt)),
        session_wf(after_new_workspace(s, nt)) || s.next_workspace_id == usize::MAX,
{
    lemma_wf_after_new_tab(s, ws_id, nt);
    if s.next_workspace_id < usize::MAX {
        lemma_wf_after_new_workspace(s, nt);
    }
}

/// A committed rename is never empty when the fallback is not: it is either
/// the fallback or the typed text without surrounding white space.
pub proof fn law_committed_name_trimmed(typed: Seq<char>, fallback: Seq<char>)
    requires
        fallback.len() > 0,
    ensures
        committed_name(typed, fallback).len() > 0,
        committed_name(typed, fallback) == fallback || committed_name(typed, fallback) == trimmed(
            typed,
        ),
{
}

/// Focus moves in order: among distinct ids, the next id after the one at
/// position `p` is the one at `p + 1`, or the first after the last; the
/// previous is the one at `p - 1`, or the last before the first.
pub proof fn law_cycle_direction(ids: Seq<usize>, p: int)
    requires
        ids.no_duplicates(),
        0 <= p < ids.len(),
    ensures
        cycle_next(ids, ids[p]) == if p + 1 < ids.len() {
            ids[p + 1]
        } else {
            ids[0]
        },
        cycle_prev(ids, ids[p]) == if p > 0 {
            ids[p - 1]
        } else {
            ids[ids.len() - 1]
        },
{
    let n = ids.len() as int;
    lemma_distinct_first_pos(ids, p);
    if p + 1 < n {
        vstd::arithmetic::div_mod::lemma_small_mod((p + 1) as nat, n as nat);
    } else {
        vstd::arithmetic::div_mod::lemma_mod_self_0(n);
    }
    if p >= 1 {
        vstd::arithmetic::div_mod::lemma_mod_add_multiples_vanish(p - 1, n);
        vstd::arithmetic::div_mod::lemma_small_mod((p - 1) as nat, n as nat);
    } else {
        vstd::arithmetic::div_mod::lemma_small_mod((n - 1) as nat, n as nat);
    }
}

} // verus!
