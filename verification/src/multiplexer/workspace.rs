use std::collections::HashMap;
use vstd::prelude::*;
use crate::multiplexer::layout::{Layout, PaneId};
use crate::multiplexer::notification::NotificationDetector;
use crate::multiplexer::pane::{
    PaneState, PaneStatus, nanos_of, path_from_string, path_of, status_after_notify,
    status_after_output,
};
use crate::terminal::grid::TermEvent;

verus! {

broadcast use vstd::std_specs::hash::group_hash_axioms;

/// Identifies a workspace for as long as the session lasts.
pub type WorkspaceId = usize;

/// Identifies a tab for as long as the session lasts.
pub type TabId = usize;

/// One tab: a layout of panes, the state of each pane and, for panes whose
/// program runs, a handle `E` on its terminal.
pub struct Tab<E> {
    pub id: TabId,
    pub name: String,
    pub layout: Layout,
    pub panes: HashMap<PaneId, PaneState>,
    pub emulators: HashMap<PaneId, E>,
    pub active_pane: PaneId,
    pub next_pane_id: usize,
    pub last_output_counts: HashMap<PaneId, u64>,
}

/// A named group of tabs.
pub struct Workspace<E> {
    pub id: WorkspaceId,
    pub name: String,
    pub tabs: Vec<Tab<E>>,
    pub active_tab: TabId,
    pub collapsed: bool,
}

/// What a tab holds, as mathematical values.
pub struct TabView<E> {
    pub id: TabId,
    pub name: Seq<char>,
    pub layout: Layout,
    pub panes: Map<PaneId, PaneState>,
    pub emulators: Map<PaneId, E>,
    pub active_pane: PaneId,
    pub next_pane_id: usize,
    pub last_output_counts: Map<PaneId, u64>,
}

/// What a workspace holds, as mathematical values.
pub struct WorkspaceView<E> {
    pub id: WorkspaceId,
    pub name: Seq<char>,
    pub tabs: Seq<TabView<E>>,
    pub active_tab: TabId,
    pub collapsed: bool,
}

impl<E> View for Tab<E> {
    type V = TabView<E>;

    open spec fn view(&self) -> TabView<E> {
        TabView {
            id: self.id,
            name: self.name@,
            layout: self.layout,
            panes: self.panes@,
            emulators: self.emulators@,
            active_pane: self.active_pane,
            next_pane_id: self.next_pane_id,
            last_output_counts: self.last_output_counts@,
        }
    }
}

impl<E> View for Workspace<E> {
    type V = WorkspaceView<E>;

    open spec fn view(&self) -> WorkspaceView<E> {
        WorkspaceView {
            id: self.id,
            name: self.name@,
            tabs: tab_views(self.tabs@),
            active_tab: self.active_tab,
            collapsed: self.collapsed,
        }
    }
}

/// The views of a sequence of tabs.
pub open spec fn tab_views<E>(tabs: Seq<Tab<E>>) -> Seq<TabView<E>> {
    tabs.map_values(|t: Tab<E>| t@)
}

/// Index of the first occurrence of `x` in `ids`.
pub open spec fn first_pos<T>(ids: Seq<T>, x: T) -> Option<int>
    decreases ids.len(),
{
    if ids.len() == 0 {
        None
    } else if ids[0] == x {
        Some(0)
    } else {
        match first_pos(ids.drop_first(), x) {
            Some(p) => Some(p + 1),
            None => None,
        }
    }
}

/// `first_pos` finds the first occurrence, and finds none exactly when `x`
/// does not occur.
pub proof fn lemma_first_pos<T>(ids: Seq<T>, x: T)
    ensures
        first_pos(ids, x) is None <==> !ids.contains(x),
        first_pos(ids, x) matches Some(p) ==> 0 <= p < ids.len() && ids[p] == x && forall|
            j: int,
        |
            0 <= j < p ==> ids[j] != x,
    decreases ids.len(),
{
    if ids.len() > 0 {
        lemma_first_pos(ids.drop_first(), x);
        if ids[0] != x {
            if ids.contains(x) {
                let k = choose|k: int| 0 <= k < ids.len() && ids[k] == x;
                assert(ids.drop_first()[k - 1] == x);
            }
            if ids.drop_first().contains(x) {
                let k = choose|k: int| 0 <= k < ids.drop_first().len() && ids.drop_first()[k] == x;
                assert(ids[k + 1] == x);
            }
            if let Some(p) = first_pos(ids.drop_first(), x) {
                assert forall|j: int| 0 <= j < p + 1 implies ids[j] != x by {
                    if j > 0 {
                        assert(ids[j] == ids.drop_first()[j - 1]);
                    }
                }
            }
        } else {
            assert(ids[0] == x);
        }
    }
}

/// When `ids[p] == x` and `x` occurs nowhere before `p`, `p` is its first position.
pub proof fn lemma_first_pos_at<T>(ids: Seq<T>, x: T, p: int)
    requires
        0 <= p < ids.len(),
        ids[p] == x,
        forall|j: int| 0 <= j < p ==> ids[j] != x,
    ensures
        first_pos(ids, x) == Some(p),
{
    lemma_first_pos(ids, x);
    let q = first_pos(ids, x).unwrap();
    assert(ids.contains(x));
}

/// Position of the first `x` in `ids`.
pub fn position_of(ids: &Vec<usize>, x: usize) -> (r: Option<usize>)
    ensures
        r matches Some(p) ==> first_pos(ids@, x) == Some(p as int),
        r is None ==> first_pos(ids@, x) is None,
{
    let mut i: usize = 0;
    while i < ids.len()
        invariant
            i <= ids@.len(),
            forall|j: int| 0 <= j < i ==> ids@[j] != x,
        decreases ids@.len() - i,
    {
        if ids[i] == x {
            proof {
                lemma_first_pos_at(ids@, x, i as int);
            }
            return Some(i);
        }
        i = i + 1;
    }
    proof {
        lemma_first_pos(ids@, x);
        if ids@.contains(x) {
            let k = choose|k: int| 0 <= k < ids@.len() && ids@[k] == x;
            assert(ids@[k] == x);
        }
    }
    None
}

/// The ids of a sequence of tabs.
pub open spec fn tab_ids<E>(tabs: Seq<TabView<E>>) -> Seq<TabId> {
    tabs.map_values(|t: TabView<E>| t.id)
}

/// Index of the tab `w.active_tab`, 0 when no tab has that id.
pub open spec fn active_tab_index<E>(w: WorkspaceView<E>) -> int {
    match first_pos(tab_ids(w.tabs), w.active_tab) {
        Some(p) => p,
        None => 0,
    }
}

/// Well-formed tab: its panes are exactly the leaves of its layout, each
/// known by its own id, all below the next id to hand out; the layout is
/// within the depth limit; terminals and output counters belong to panes.
pub open spec fn tab_wf<E>(t: TabView<E>) -> bool {
    &&& t.layout.ids().no_duplicates()
    &&& t.layout.spec_depth() <= Layout::MAX_DEPTH
    &&& forall|p: PaneId| #[trigger] t.panes.contains_key(p) <==> t.layout.ids().contains(p)
    &&& forall|p: PaneId| #[trigger] t.panes.contains_key(p) ==> t.panes[p].id == p
    &&& forall|p: PaneId| #[trigger] t.layout.ids().contains(p) ==> p < t.next_pane_id
    &&& forall|p: PaneId| #[trigger] t.emulators.contains_key(p) ==> t.panes.contains_key(p)
    &&& forall|p: PaneId| #[trigger]
        t.last_output_counts.contains_key(p) ==> t.panes.contains_key(p)
}

/// Tab `t` without pane `p`, the layout being `nl`: the pane's state,
/// terminal and output counter go, and the first pane gets the focus.
pub open spec fn tab_without_pane<E>(t: TabView<E>, p: PaneId, nl: Layout) -> TabView<E> {
    TabView {
        layout: nl,
        panes: t.panes.remove(p),
        emulators: t.emulators.remove(p),
        last_output_counts: t.last_output_counts.remove(p),
        active_pane: nl.ids()[0],
        ..t
    }
}

/// A tab `id` named `name` holding the single pane `pane` (id 0), with
/// the terminal `emu` when one could be started.
pub open spec fn single_tab_view<E>(id: TabId, name: Seq<char>, pane: PaneState, emu: Option<E>) -> TabView<E> {
    TabView {
        id: id,
        name: name,
        layout: Layout::Leaf(0),
        panes: Map::empty().insert(0, pane),
        emulators: match emu {
            Some(e) => Map::empty().insert(0, e),
            None => Map::empty(),
        },
        active_pane: 0,
        next_pane_id: 1,
        last_output_counts: match emu {
            Some(_) => Map::empty().insert(0, 0u64),
            None => Map::empty(),
        },
    }
}

/// Tab `t` after its active pane was split, the layout being `nl` and the
/// new pane `pane`: the new pane takes the next id and the focus.
pub open spec fn tab_after_split<E>(t: TabView<E>, nl: Layout, pane: PaneState) -> TabView<E> {
    TabView {
        layout: nl,
        panes: t.panes.insert(pane.id, pane),
        next_pane_id: (t.next_pane_id + 1) as usize,
        active_pane: pane.id,
        ..t
    }
}

/// `q` is `p` after new output: a waiting pane runs again and the output
/// clock restarts (at a time only the clock knows).
pub open spec fn output_step(p: PaneState, q: PaneState) -> bool {
    q == PaneState { status: status_after_output(p.status), last_output_at: q.last_output_at, ..p }
}

/// `q` is `p` after an idle check: only the status may change, and only
/// from running to waiting (whether the idle time has passed is the clock's).
pub open spec fn idle_step(p: PaneState, q: PaneState) -> bool {
    &&& q == PaneState { status: q.status, ..p }
    &&& (q.status == p.status || (p.status == PaneStatus::Running && q.status
        == PaneStatus::Waiting))
}

/// Two idle checks in a row are one idle check.
pub proof fn lemma_idle_step_chain(a: PaneState, b: PaneState, c: PaneState)
    requires
        idle_step(a, b),
        idle_step(b, c),
    ensures
        idle_step(a, c),
{
}

/// Pane `p` after the terminal event `e`: a new directory or title is
/// recorded, a bell or notification makes a running pane wait, an exit
/// kills it.
pub open spec fn pane_after_event(p: PaneState, e: TermEvent) -> PaneState {
    match e {
        TermEvent::CwdChange(path) => PaneState { cwd: path_of(path@), ..p },
        TermEvent::TitleChange(title) => PaneState { terminal_title: Some(title), ..p },
        TermEvent::Bell => PaneState { status: status_after_notify(p.status), ..p },
        TermEvent::OscNotify(_) => PaneState { status: status_after_notify(p.status), ..p },
        TermEvent::Exited => PaneState { status: PaneStatus::Dead, ..p },
    }
}

/// The output count last seen for pane `p` (0 when none was).
pub open spec fn last_count<E>(t: TabView<E>, p: PaneId) -> u64 {
    if t.last_output_counts.contains_key(p) {
        t.last_output_counts[p]
    } else {
        0
    }
}

/// `t2` is `t` after an idle check of its panes.
pub open spec fn tab_idle_checked<E>(t: TabView<E>, t2: TabView<E>) -> bool {
    &&& t2 == TabView { panes: t2.panes, ..t }
    &&& t2.panes.dom() == t.panes.dom()
    &&& forall|p: PaneId| #[trigger] t.panes.contains_key(p) ==> idle_step(t.panes[p], t2.panes[p])
    &&& forall|p: PaneId|
        #[trigger] t.panes.contains_key(p) && !t.layout.ids().contains(p) ==> t2.panes[p]
            == t.panes[p]
}

/// With a zero idle threshold, every running pane of the layout of `t`
/// waits in `t2`.
pub open spec fn idle_forced<E>(t: TabView<E>, t2: TabView<E>, threshold: u128) -> bool {
    threshold == 0 ==> forall|p: PaneId|
        #[trigger] t.panes.contains_key(p) && t.layout.ids().contains(p) && t.panes[p].status
            == PaneStatus::Running ==> t2.panes[p].status == PaneStatus::Waiting
}

/// The panes after a selection started in pane `pid` at `cell` (when the
/// cell is known): every other selection is cleared.
pub open spec fn selection_started(
    panes: Map<PaneId, PaneState>,
    pid: PaneId,
    cell: Option<(usize, usize)>,
) -> Map<PaneId, PaneState> {
    Map::new(
        |q: PaneId| panes.contains_key(q),
        |q: PaneId|
            PaneState {
                selection: if q == pid && cell is Some {
                    Some((cell.unwrap(), cell.unwrap()))
                } else {
                    None
                },
                ..panes[q]
            },
    )
}

impl<E> Tab<E> {
    /// Clears every selection of the tab, then starts one in pane `pid` at
    /// `cell` when the cell is known and the pane exists.
    pub fn start_selection(&mut self, pid: PaneId, cell: Option<(usize, usize)>)
        requires
            tab_wf(old(self)@),
        ensures
            final(self)@ == (TabView {
                panes: selection_started(old(self)@.panes, pid, cell),
                ..old(self)@
            }),
    {
        let ids = self.layout.pane_ids();
        let ghost target = selection_started(old(self)@.panes, pid, cell);
        let mut k: usize = 0;
        while k < ids.len()
            invariant
                k <= ids@.len(),
                ids@ == old(self)@.layout.ids(),
                target == selection_started(old(self)@.panes, pid, cell),
                tab_wf(old(self)@),
                self@ == (TabView { panes: self@.panes, ..old(self)@ }),
                self@.panes.dom() == old(self)@.panes.dom(),
                forall|j: int| 0 <= j < k ==> #[trigger] self@.panes[ids@[j]] == target[ids@[j]],
                forall|q: PaneId|
                    #[trigger] self@.panes.contains_key(q) && !ids@.take(k as int).contains(q)
                        ==> self@.panes[q] == old(self)@.panes[q],
            decreases ids@.len() - k,
        {
            let id = ids[k];
            let ghost before = self@;
            proof {
                assert(old(self)@.layout.ids().contains(id));
                assert(self@.panes.contains_key(id));
                assert(!ids@.take(k as int).contains(id)) by {
                    if ids@.take(k as int).contains(id) {
                        let j = choose|j: int| 0 <= j < k && ids@.take(k as int)[j] == id;
                        assert(ids@[j] == ids@[k as int]);
                    }
                }
                assert(self@.panes[id] == old(self)@.panes[id]);
            }
            match self.panes.remove(&id) {
                Some(mut p) => {
                    assert(p == old(self)@.panes[id]);
                    assert(target.contains_key(id));
                    if id == pid {
                        match cell {
                            Some(c) => {
                                p.selection = Some((c, c));
                            },
                            None => {
                                p.selection = None;
                            },
                        }
                    } else {
                        p.selection = None;
                    }
                    self.panes.insert(id, p);
                    proof {
                        assert(p == target[id]);
                        assert(self@.panes =~= before.panes.insert(id, p));
                        assert forall|j: int| 0 <= j < k + 1 implies #[trigger] self@.panes[ids@[j]]
                            == target[ids@[j]] by {
                            if j < k {
                                assert(ids@[j] != id);
                            }
                        }
                        assert forall|q: PaneId|
                            #[trigger] self@.panes.contains_key(q) && !ids@.take(k + 1).contains(q)
                                implies self@.panes[q] == old(self)@.panes[q] by {
                            assert(q != id) by {
                                assert(ids@.take(k + 1)[k as int] == id);
                            }
                            if ids@.take(k as int).contains(q) {
                                let j = choose|j: int| 0 <= j < k && ids@.take(k as int)[j] == q;
                                assert(ids@.take(k + 1)[j] == q);
                            }
                        }
                    }
                },
                None => {},
            }
            k = k + 1;
        }
        proof {
            assert(self@.panes =~= target) by {
                assert forall|q: PaneId| #[trigger] self@.panes.contains_key(q) implies self@.panes[q]
                    == target[q] by {
                    assert(old(self)@.layout.ids().contains(q));
                    let j = choose|j: int| 0 <= j < ids@.len() && ids@[j] == q;
                    assert(self@.panes[ids@[j]] == target[ids@[j]]);
                }
            }
        }
    }

    /// Pane `pid`'s terminal reports `count` bytes of output so far: when the
    /// count moved, it is recorded and the pane had output.
    pub fn note_output_count(&mut self, pid: PaneId, count: u64)
        requires
            old(self)@.panes.contains_key(pid),
        ensures
            count == last_count(old(self)@, pid) ==> final(self)@ == old(self)@,
            count != last_count(old(self)@, pid) ==> final(self)@ == (TabView {
                panes: old(self)@.panes.insert(pid, final(self)@.panes[pid]),
                last_output_counts: old(self)@.last_output_counts.insert(pid, count),
                ..old(self)@
            }),
            count != last_count(old(self)@, pid) ==> output_step(
                old(self)@.panes[pid],
                final(self)@.panes[pid],
            ),
    {
        let last = match self.last_output_counts.get(&pid) {
            Some(c) => *c,
            None => 0,
        };
        if count != last {
            self.last_output_counts.insert(pid, count);
            match self.panes.remove(&pid) {
                Some(mut p) => {
                    p.on_output();
                    self.panes.insert(pid, p);
                    proof {
                        assert(self@.panes =~= old(self)@.panes.insert(pid, p));
                    }
                },
                None => {},
            }
        }
    }

    /// Applies the terminal event `e` to pane `pid`, when the tab has it.
    pub fn apply_event(&mut self, pid: PaneId, e: TermEvent)
        ensures
            old(self)@.panes.contains_key(pid) ==> final(self)@ == (TabView {
                panes: old(self)@.panes.insert(pid, pane_after_event(old(self)@.panes[pid], e)),
                ..old(self)@
            }),
            !old(self)@.panes.contains_key(pid) ==> final(self)@ == old(self)@,
    {
        match self.panes.remove(&pid) {
            Some(mut p) => {
                let ghost p0 = p;
                match e {
                    TermEvent::CwdChange(path) => {
                        p.cwd = path_from_string(path);
                    },
                    TermEvent::TitleChange(title) => {
                        p.terminal_title = Some(title);
                    },
                    TermEvent::Bell => p.on_notify(),
                    TermEvent::OscNotify(_) => p.on_notify(),
                    TermEvent::Exited => p.on_exit(),
                }
                assert(p == pane_after_event(p0, e));
                self.panes.insert(pid, p);
                proof {
                    assert(self@.panes =~= old(self)@.panes.insert(pid, p));
                }
            },
            None => {
                proof {
                    assert(self@.panes =~= old(self)@.panes);
                }
            },
        }
    }

    /// Pane `pid`'s program has ended: a pane not yet dead dies, and `true`
    /// says it just did.
    pub fn mark_exited(&mut self, pid: PaneId) -> (just_exited: bool)
        ensures
            just_exited == (old(self)@.panes.contains_key(pid) && old(self)@.panes[pid].status
                != PaneStatus::Dead),
            just_exited ==> final(self)@ == (TabView {
                panes: old(self)@.panes.insert(
                    pid,
                    PaneState { status: PaneStatus::Dead, ..old(self)@.panes[pid] },
                ),
                ..old(self)@
            }),
            !just_exited ==> final(self)@ == old(self)@,
    {
        let dead = match self.panes.get(&pid) {
            Some(p) => p.status == PaneStatus::Dead,
            None => true,
        };
        if dead {
            return false;
        }
        match self.panes.remove(&pid) {
            Some(mut p) => {
                p.on_exit();
                self.panes.insert(pid, p);
                proof {
                    assert(self@.panes =~= old(self)@.panes.insert(pid, p));
                }
                true
            },
            None => false,
        }
    }

    /// Moves the end of pane `pid`'s selection to `end`, when the pane
    /// exists and has a selection; `true` says it did.
    pub fn move_selection_end(&mut self, pid: PaneId, end: (usize, usize)) -> (moved: bool)
        ensures
            moved == (old(self)@.panes.contains_key(pid) && old(self)@.panes[pid].selection is Some),
            moved ==> final(self)@ == (TabView {
                panes: old(self)@.panes.insert(
                    pid,
                    PaneState {
                        selection: Some((old(self)@.panes[pid].selection.unwrap().0, end)),
                        ..old(self)@.panes[pid]
                    },
                ),
                ..old(self)@
            }),
            !moved ==> final(self)@ == old(self)@,
    {
        let present = match self.panes.get(&pid) {
            Some(p) => p.selection.is_some(),
            None => false,
        };
        if !present {
            return false;
        }
        match self.panes.remove(&pid) {
            Some(mut p) => {
                match p.selection {
                    Some(sel) => {
                        p.selection = Some((sel.0, end));
                    },
                    None => {},
                }
                self.panes.insert(pid, p);
                proof {
                    assert(self@.panes =~= old(self)@.panes.insert(pid, p));
                }
                true
            },
            None => false,
        }
    }

    /// Records the git branch of pane `pid`.
    pub fn set_branch(&mut self, pid: PaneId, branch: Option<String>)
        requires
            old(self)@.panes.contains_key(pid),
        ensures
            final(self)@ == (TabView {
                panes: old(self)@.panes.insert(
                    pid,
                    PaneState { git_branch: branch, ..old(self)@.panes[pid] },
                ),
                ..old(self)@
            }),
    {
        match self.panes.remove(&pid) {
            Some(mut p) => {
                p.git_branch = branch;
                self.panes.insert(pid, p);
                proof {
                    assert(self@.panes =~= old(self)@.panes.insert(pid, p));
                }
            },
            None => {},
        }
    }

    /// Makes each running pane that had no output for the detector's idle
    /// time wait.
    pub fn check_idle(&mut self, detector: &NotificationDetector)
        ensures
            tab_idle_checked(old(self)@, final(self)@),
            idle_forced(old(self)@, final(self)@, nanos_of(detector.idle_timeout())),
    {
        let ids = self.layout.pane_ids();
        let ghost zero = nanos_of(detector.idle_timeout()) == 0;
        let mut k: usize = 0;
        while k < ids.len()
            invariant
                k <= ids@.len(),
                ids@ == old(self)@.layout.ids(),
                zero == (nanos_of(detector.idle_timeout()) == 0),
                tab_idle_checked(old(self)@, self@),
                forall|j: int|
                    0 <= j < k && zero && old(self)@.panes.contains_key(#[trigger] ids@[j])
                        && old(self)@.panes[ids@[j]].status == PaneStatus::Running
                        ==> self@.panes[ids@[j]].status == PaneStatus::Waiting,
            decreases ids@.len() - k,
        {
            let id = ids[k];
            let ghost before = self@;
            proof {
                assert(old(self)@.layout.ids().contains(id));
            }
            match self.panes.remove(&id) {
                Some(mut p) => {
                    detector.check_idle(&mut p);
                    self.panes.insert(id, p);
                    proof {
                        assert(self@.panes =~= before.panes.insert(id, p));
                        assert(self@.panes.dom() =~= old(self)@.panes.dom());
                        assert(idle_step(before.panes[id], p));
                        lemma_idle_step_chain(old(self)@.panes[id], before.panes[id], p);
                        assert forall|q: PaneId| #[trigger] old(self)@.panes.contains_key(q) implies idle_step(
                            old(self)@.panes[q],
                            self@.panes[q],
                        ) by {
                            if q != id {
                                assert(self@.panes[q] == before.panes[q]);
                            }
                        }
                        assert forall|q: PaneId|
                            #[trigger] old(self)@.panes.contains_key(q) && !old(self)@.layout.ids().contains(
                                q,
                            ) implies self@.panes[q] == old(self)@.panes[q] by {
                            assert(q != id);
                            assert(self@.panes[q] == before.panes[q]);
                        }
                        assert forall|j: int|
                            0 <= j < k + 1 && zero && old(self)@.panes.contains_key(#[trigger] ids@[j])
                                && old(self)@.panes[ids@[j]].status == PaneStatus::Running
                                implies self@.panes[ids@[j]].status == PaneStatus::Waiting by {
                            if ids@[j] == id {
                                assert(idle_step(old(self)@.panes[id], before.panes[id]));
                            } else {
                                assert(self@.panes[ids@[j]] == before.panes[ids@[j]]);
                            }
                        }
                    }
                },
                None => {
                    proof {
                        assert(self@.panes =~= before.panes);
                        assert(!old(self)@.panes.contains_key(id));
                    }
                },
            }
            k = k + 1;
        }
        proof {
            assert forall|p: PaneId|
                #[trigger] old(self)@.panes.contains_key(p) && old(self)@.layout.ids().contains(p)
                    && old(self)@.panes[p].status == PaneStatus::Running && zero implies self@.panes[p].status
                == PaneStatus::Waiting by {
                let j = choose|j: int| 0 <= j < ids@.len() && ids@[j] == p;
                assert(old(self)@.panes.contains_key(ids@[j]));
            }
        }
    }

    /// A tab `id` named `name` with the single pane `pane`, and its terminal
    /// `emu` when one could be started.
    pub fn single(id: TabId, name: String, pane: PaneState, emu: Option<E>) -> (t: Self)
        requires
            pane.id == 0,
        ensures
            t@ == single_tab_view(id, name@, pane, emu),
            tab_wf(t@),
    {
        let mut panes: HashMap<PaneId, PaneState> = HashMap::new();
        panes.insert(0, pane);
        let mut emulators: HashMap<PaneId, E> = HashMap::new();
        let mut counts: HashMap<PaneId, u64> = HashMap::new();
        match emu {
            Some(e) => {
                counts.insert(0, 0);
                emulators.insert(0, e);
            },
            None => {},
        }
        let t = Tab {
            id,
            name,
            layout: Layout::new(0),
            panes,
            emulators,
            active_pane: 0,
            next_pane_id: 1,
            last_output_counts: counts,
        };
        proof {
            assert(t@.panes =~= single_tab_view(id, name@, pane, emu).panes);
            assert(t@.emulators =~= single_tab_view(id, name@, pane, emu).emulators);
            assert(t@.last_output_counts =~= single_tab_view(id, name@, pane, emu).last_output_counts);
            assert(Layout::Leaf(0).ids() =~= seq![0usize]);
            assert forall|q: PaneId| #[trigger] t@.panes.contains_key(q) <==> t@.layout.ids().contains(q) by {
                if q == 0 {
                    assert(t@.layout.ids()[0] == 0);
                }
            }
            assert(t@.layout.spec_depth() == 0);
        }
        t
    }

    /// Puts the new pane `pane` in, `nl` being the layout that holds it; the
    /// next pane id moves on and the new pane gets the focus.
    pub fn add_split_pane(&mut self, nl: Layout, pane: PaneState)
        requires
            old(self).next_pane_id < usize::MAX,
        ensures
            final(self)@ == tab_after_split(old(self)@, nl, pane),
    {
        let pid = pane.id;
        self.panes.insert(pid, pane);
        self.next_pane_id = self.next_pane_id + 1;
        self.layout = nl;
        self.active_pane = pid;
    }

    /// Records the terminal `emu` of pane `p`, with no output counted yet.
    pub fn attach(&mut self, p: PaneId, emu: E)
        ensures
            final(self)@ == (TabView {
                emulators: old(self)@.emulators.insert(p, emu),
                last_output_counts: old(self)@.last_output_counts.insert(p, 0),
                ..old(self)@
            }),
    {
        self.last_output_counts.insert(p, 0);
        self.emulators.insert(p, emu);
    }

    /// Takes pane `p` out of the tab, `nl` being the layout without it: its
    /// state, terminal and output counter go, and the first pane gets the focus.
    pub fn drop_pane(&mut self, p: PaneId, nl: Layout)
        requires
            nl.ids().len() >= 1,
        ensures
            final(self)@ == tab_without_pane(old(self)@, p, nl),
    {
        proof {
            crate::multiplexer::layout::lemma_first_pane_is_first_id(nl);
        }
        let first = nl.first_pane();
        self.panes.remove(&p);
        self.emulators.remove(&p);
        self.last_output_counts.remove(&p);
        self.layout = nl;
        self.active_pane = first;
    }
}

impl<E> Workspace<E> {
    /// The ids of the tabs, in order.
    pub fn tab_id_list(&self) -> (v: Vec<TabId>)
        ensures
            v@ == tab_ids(self@.tabs),
    {
        let mut v: Vec<TabId> = Vec::new();
        let mut i: usize = 0;
        while i < self.tabs.len()
            invariant
                i <= self.tabs@.len(),
                v@ == tab_ids(self@.tabs).take(i as int),
            decreases self.tabs@.len() - i,
        {
            v.push(self.tabs[i].id);
            i = i + 1;
            assert(v@ =~= tab_ids(self@.tabs).take(i as int));
        }
        assert(tab_ids(self@.tabs).take(i as int) =~= tab_ids(self@.tabs));
        v
    }

    /// Index of the active tab in `self.tabs`. Falls back to 0 if active_tab id not found.
    pub fn active_tab_idx(&self) -> (i: usize)
        ensures
            i == active_tab_index(self@),
    {
        let ids = self.tab_id_list();
        match position_of(&ids, self.active_tab) {
            Some(p) => p,
            None => 0,
        }
    }
}

} // verus!
