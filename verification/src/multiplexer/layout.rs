use vstd::prelude::*;

verus! {

/// Identifies a pane within its tab.
pub type PaneId = usize;

/// Orientation of a split: `Horizontal` stacks top / bottom, `Vertical`
/// places the children left / right.
#[derive(Debug, Clone, Copy, PartialEq, Eq, Structural)]
pub enum SplitDirection {
    Horizontal,
    Vertical,
}

/// Binary tree of panes. A split node gives `ratio_permille` thousandths of
/// its space to the left/top child (between 100 and 900 once set).
#[derive(Debug)]
pub enum Layout {
    Leaf(PaneId),
    Split { direction: SplitDirection, left: Box<Layout>, right: Box<Layout>, ratio_permille: u32 },
}

/// Default share given to the left/top child of a new split.
pub const HALF_PERMILLE: u32 = 500;

/// Smallest share a split may give its left/top child.
pub const MIN_RATIO_PERMILLE: u32 = 100;

/// Largest share a split may give its left/top child.
pub const MAX_RATIO_PERMILLE: u32 = 900;

/// The larger of two naturals.
pub open spec fn max_nat(a: nat, b: nat) -> nat {
    if a >= b {
        a
    } else {
        b
    }
}

/// `r` clamped to the allowed ratio range.
pub open spec fn clamp_ratio(r: u32) -> u32 {
    if r < MIN_RATIO_PERMILLE {
        MIN_RATIO_PERMILLE
    } else if r > MAX_RATIO_PERMILLE {
        MAX_RATIO_PERMILLE
    } else {
        r
    }
}

/// `s` with `n` inserted right after the first occurrence of `t`
/// (unchanged when `t` does not occur).
pub open spec fn insert_after_first(s: Seq<PaneId>, t: PaneId, n: PaneId) -> Seq<PaneId>
    decreases s.len(),
{
    if s.len() == 0 {
        s
    } else if s[0] == t {
        seq![t, n] + s.drop_first()
    } else {
        seq![s[0]] + insert_after_first(s.drop_first(), t, n)
    }
}

/// Whether `l` is the single leaf `t`.
pub open spec fn is_leaf_of(l: Layout, t: PaneId) -> bool {
    match l {
        Layout::Leaf(id) => id == t,
        _ => false,
    }
}

/// `s` with every occurrence of `t` left out.
pub open spec fn without(s: Seq<PaneId>, t: PaneId) -> Seq<PaneId>
    decreases s.len(),
{
    if s.len() == 0 {
        s
    } else if s[0] == t {
        without(s.drop_first(), t)
    } else {
        seq![s[0]] + without(s.drop_first(), t)
    }
}

impl Layout {
    /// Deepest nesting of splits (a leaf has depth 0).
    pub open spec fn spec_depth(self) -> nat
        decreases self,
    {
        match self {
            Layout::Leaf(_) => 0,
            Layout::Split { left, right, .. } => 1 + max_nat(left.spec_depth(), right.spec_depth()),
        }
    }

    /// The panes of the tree, left to right.
    pub open spec fn ids(self) -> Seq<PaneId>
        decreases self,
    {
        match self {
            Layout::Leaf(id) => seq![id],
            Layout::Split { left, right, .. } => left.ids() + right.ids(),
        }
    }

    /// The left-most pane of the tree.
    pub open spec fn spec_first_pane(self) -> PaneId
        decreases self,
    {
        match self {
            Layout::Leaf(id) => id,
            Layout::Split { left, .. } => left.spec_first_pane(),
        }
    }

    /// Ratio of the first split (in pre-order) whose left child starts with `d`.
    pub open spec fn spec_get_ratio(self, d: PaneId) -> Option<u32>
        decreases self,
    {
        match self {
            Layout::Leaf(_) => None,
            Layout::Split { left, right, ratio_permille, .. } => {
                if left.spec_first_pane() == d {
                    Some(ratio_permille)
                } else {
                    match left.spec_get_ratio(d) {
                        Some(r) => Some(r),
                        None => right.spec_get_ratio(d),
                    }
                }
            },
        }
    }

    /// The tree where every top-most split whose left child starts with `d`
    /// gets ratio `clamp_ratio(r)`.
    pub open spec fn spec_set_ratio(self, d: PaneId, r: u32) -> Layout
        decreases self,
    {
        match self {
            Layout::Leaf(id) => Layout::Leaf(id),
            Layout::Split { direction, left, right, ratio_permille } => {
                if left.spec_first_pane() == d {
                    Layout::Split { direction, left, right, ratio_permille: clamp_ratio(r) }
                } else {
                    Layout::Split {
                        direction,
                        left: Box::new(left.spec_set_ratio(d, r)),
                        right: Box::new(right.spec_set_ratio(d, r)),
                        ratio_permille,
                    }
                }
            },
        }
    }

    /// The tree where the first leaf `target` (left to right) becomes a split
    /// of `target` and `new_id`; `None` when `target` is not a leaf of the tree.
    pub open spec fn spec_split_inner(self, target: PaneId, dir: SplitDirection, new_id: PaneId) -> Option<Layout>
        decreases self,
    {
        match self {
            Layout::Leaf(id) => {
                if id == target {
                    Some(
                        Layout::Split {
                            direction: dir,
                            left: Box::new(Layout::Leaf(target)),
                            right: Box::new(Layout::Leaf(new_id)),
                            ratio_permille: HALF_PERMILLE,
                        },
                    )
                } else {
                    None
                }
            },
            Layout::Split { direction, left, right, ratio_permille } => {
                match left.spec_split_inner(target, dir, new_id) {
                    Some(nl) => Some(
                        Layout::Split { direction, left: Box::new(nl), right, ratio_permille },
                    ),
                    None => match right.spec_split_inner(target, dir, new_id) {
                        Some(nr) => Some(
                            Layout::Split { direction, left, right: Box::new(nr), ratio_permille },
                        ),
                        None => None,
                    },
                }
            },
        }
    }

    /// Splitting is refused once the tree has reached `MAX_DEPTH`.
    pub open spec fn spec_split(self, target: PaneId, dir: SplitDirection, new_id: PaneId) -> Option<Layout> {
        if self.spec_depth() >= Self::MAX_DEPTH {
            None
        } else {
            self.spec_split_inner(target, dir, new_id)
        }
    }

    /// The tree with leaf `target` removed, its sibling taking the place of
    /// their parent; `None` when the tree is the single leaf `target`.
    pub open spec fn spec_remove(self, target: PaneId) -> Option<Layout>
        decreases self,
    {
        match self {
            Layout::Leaf(id) => {
                if id == target {
                    None
                } else {
                    Some(self)
                }
            },
            Layout::Split { direction, left, right, ratio_permille } => {
                if is_leaf_of(*left, target) {
                    Some(*right)
                } else if is_leaf_of(*right, target) {
                    Some(*left)
                } else {
                    let nl = match left.spec_remove(target) {
                        Some(l) => l,
                        None => *left,
                    };
                    let nr = match right.spec_remove(target) {
                        Some(r) => r,
                        None => *right,
                    };
                    Some(
                        Layout::Split {
                            direction,
                            left: Box::new(nl),
                            right: Box::new(nr),
                            ratio_permille,
                        },
                    )
                }
            },
        }
    }

    /// Deepest split nesting that `split` still accepts a split below.
    pub const MAX_DEPTH: usize = 4;

    /// A layout made of the single pane `id`.
    pub fn new(id: PaneId) -> (l: Self)
        ensures
            l == Layout::Leaf(id),
    {
        Layout::Leaf(id)
    }

    /// A copy of the tree.
    pub fn duplicate(&self) -> (l: Self)
        ensures
            l == *self,
        decreases self,
    {
        match self {
            Layout::Leaf(id) => Layout::Leaf(*id),
            Layout::Split { direction, left, right, ratio_permille } => Layout::Split {
                direction: *direction,
                left: Box::new(left.duplicate()),
                right: Box::new(right.duplicate()),
                ratio_permille: *ratio_permille,
            },
        }
    }

    /// Deepest nesting of splits.
    pub fn depth(&self) -> (d: usize)
        requires
            self.spec_depth() < usize::MAX,
        ensures
            d == self.spec_depth(),
        decreases self,
    {
        match self {
            Layout::Leaf(_) => 0,
            Layout::Split { left, right, .. } => {
                let dl = left.depth();
                let dr = right.depth();
                if dl >= dr {
                    1 + dl
                } else {
                    1 + dr
                }
            },
        }
    }

    /// Whether the tree is at least `k` splits deep.
    pub fn depth_at_least(&self, k: usize) -> (b: bool)
        ensures
            b == (self.spec_depth() >= k),
        decreases self,
    {
        if k == 0 {
            return true;
        }
        match self {
            Layout::Leaf(_) => false,
            Layout::Split { left, right, .. } => left.depth_at_least(k - 1) || right.depth_at_least(
                k - 1,
            ),
        }
    }

    /// The panes of the tree, left to right.
    pub fn pane_ids(&self) -> (v: Vec<PaneId>)
        ensures
            v@ == self.ids(),
        decreases self,
    {
        match self {
            Layout::Leaf(id) => {
                let mut v = Vec::new();
                v.push(*id);
                v
            },
            Layout::Split { left, right, .. } => {
                let mut ids = left.pane_ids();
                let mut rest = right.pane_ids();
                ids.append(&mut rest);
                ids
            },
        }
    }

    /// The left-most pane in the subtree — stable identity for a split node.
    pub fn first_pane(&self) -> (id: PaneId)
        ensures
            id == self.spec_first_pane(),
            id == self.ids()[0],
        decreases self,
    {
        proof {
            lemma_first_pane_is_first_id(*self);
        }
        match self {
            Layout::Leaf(id) => *id,
            Layout::Split { left, .. } => left.first_pane(),
        }
    }

    /// Ratio (thousandths) of the split whose left child's first pane is `divider_id`.
    pub fn get_ratio(&self, divider_id: PaneId) -> (r: Option<u32>)
        ensures
            r == self.spec_get_ratio(divider_id),
        decreases self,
    {
        match self {
            Layout::Leaf(_) => None,
            Layout::Split { left, right, ratio_permille, .. } => {
                if left.first_pane() == divider_id {
                    Some(*ratio_permille)
                } else {
                    match left.get_ratio(divider_id) {
                        Some(r) => Some(r),
                        None => right.get_ratio(divider_id),
                    }
                }
            },
        }
    }

    fn with_ratio(&self, divider_id: PaneId, new_ratio: u32) -> (l: Layout)
        ensures
            l == self.spec_set_ratio(divider_id, new_ratio),
        decreases self,
    {
        match self {
            Layout::Leaf(id) => Layout::Leaf(*id),
            Layout::Split { direction, left, right, ratio_permille } => {
                if left.first_pane() == divider_id {
                    let clamped = if new_ratio < MIN_RATIO_PERMILLE {
                        MIN_RATIO_PERMILLE
                    } else if new_ratio > MAX_RATIO_PERMILLE {
                        MAX_RATIO_PERMILLE
                    } else {
                        new_ratio
                    };
                    Layout::Split {
                        direction: *direction,
                        left: Box::new(left.duplicate()),
                        right: Box::new(right.duplicate()),
                        ratio_permille: clamped,
                    }
                } else {
                    Layout::Split {
                        direction: *direction,
                        left: Box::new(left.with_ratio(divider_id, new_ratio)),
                        right: Box::new(right.with_ratio(divider_id, new_ratio)),
                        ratio_permille: *ratio_permille,
                    }
                }
            },
        }
    }

    /// Updates the ratio of the split identified by its left child's first
    /// pane; the new ratio is clamped to 100 … 900 thousandths.
    pub fn set_ratio(&mut self, divider_id: PaneId, new_ratio: u32)
        ensures
            *final(self) == old(self).spec_set_ratio(divider_id, new_ratio),
    {
        let l = self.with_ratio(divider_id, new_ratio);
        *self = l;
    }

    /// Splits pane `target` into `target` and `new_id` (placed after it);
    /// refused once the tree is `MAX_DEPTH` deep.
    pub fn split(&self, target: PaneId, dir: SplitDirection, new_id: PaneId) -> (r: Option<Self>)
        ensures
            r == self.spec_split(target, dir, new_id),
    {
        if self.depth_at_least(Self::MAX_DEPTH) {
            return None;
        }
        self.split_inner(target, dir, new_id)
    }

    fn split_inner(&self, target: PaneId, dir: SplitDirection, new_id: PaneId) -> (r: Option<Self>)
        ensures
            r == self.spec_split_inner(target, dir, new_id),
        decreases self,
    {
        match self {
            Layout::Leaf(id) => {
                if *id == target {
                    Some(
                        Layout::Split {
                            direction: dir,
                            left: Box::new(Layout::Leaf(target)),
                            right: Box::new(Layout::Leaf(new_id)),
                            ratio_permille: HALF_PERMILLE,
                        },
                    )
                } else {
                    None
                }
            },
            Layout::Split { direction, left, right, ratio_permille } => {
                match left.split_inner(target, dir, new_id) {
                    Some(nl) => Some(
                        Layout::Split {
                            direction: *direction,
                            left: Box::new(nl),
                            right: Box::new(right.duplicate()),
                            ratio_permille: *ratio_permille,
                        },
                    ),
                    None => match right.split_inner(target, dir, new_id) {
                        Some(nr) => Some(
                            Layout::Split {
                                direction: *direction,
                                left: Box::new(left.duplicate()),
                                right: Box::new(nr),
                                ratio_permille: *ratio_permille,
                            },
                        ),
                        None => None,
                    },
                }
            },
        }
    }

    /// Whether the tree is the single leaf `t`.
    pub fn is_leaf(&self, t: PaneId) -> (b: bool)
        ensures
            b == is_leaf_of(*self, t),
    {
        match self {
            Layout::Leaf(id) => *id == t,
            _ => false,
        }
    }

    /// Removes pane `target`; its sibling takes the place of their parent.
    /// `None` when `target` is the only pane.
    pub fn remove(&self, target: PaneId) -> (r: Option<Self>)
        ensures
            r == self.spec_remove(target),
        decreases self,
    {
        match self {
            Layout::Leaf(id) => {
                if *id == target {
                    None
                } else {
                    Some(self.duplicate())
                }
            },
            Layout::Split { direction, left, right, ratio_permille } => {
                let left_is_target = left.is_leaf(target);
                let right_is_target = right.is_leaf(target);
                if left_is_target {
                    Some(right.duplicate())
                } else if right_is_target {
                    Some(left.duplicate())
                } else {
                    let nl = match left.remove(target) {
                        Some(l) => l,
                        None => left.duplicate(),
                    };
                    let nr = match right.remove(target) {
                        Some(r) => r,
                        None => right.duplicate(),
                    };
                    Some(
                        Layout::Split {
                            direction: *direction,
                            left: Box::new(nl),
                            right: Box::new(nr),
                            ratio_permille: *ratio_permille,
                        },
                    )
                }
            },
        }
    }
}

impl Clone for Layout {
    fn clone(&self) -> (l: Self)
        ensures
            l == *self,
    {
        self.duplicate()
    }
}

/// The first pane of a tree is the first of its panes, and a tree has at least one pane.
pub proof fn lemma_first_pane_is_first_id(l: Layout)
    ensures
        l.ids().len() >= 1,
        l.spec_first_pane() == l.ids()[0],
    decreases l,
{
    match l {
        Layout::Leaf(_) => {},
        Layout::Split { left, right, .. } => {
            lemma_first_pane_is_first_id(*left);
            lemma_first_pane_is_first_id(*right);
        },
    }
}

/// Leaving out `t` distributes over concatenation.
pub proof fn lemma_without_concat(a: Seq<PaneId>, b: Seq<PaneId>, t: PaneId)
    ensures
        without(a + b, t) == without(a, t) + without(b, t),
    decreases a.len(),
{
    if a.len() == 0 {
        assert(a + b =~= b);
        assert(without(a, t) + without(b, t) =~= without(b, t));
    } else {
        assert((a + b).drop_first() =~= a.drop_first() + b);
        lemma_without_concat(a.drop_first(), b, t);
        if a[0] != t {
            assert(seq![a[0]] + without(a.drop_first(), t) + without(b, t) =~= seq![a[0]] + (
            without(a.drop_first(), t) + without(b, t)));
        }
    }
}

/// Leaving `t` out of a one-element sequence.
pub proof fn lemma_without_singleton(x: PaneId, t: PaneId)
    ensures
        without(seq![x], t) == if x == t {
            Seq::<PaneId>::empty()
        } else {
            seq![x]
        },
{
    let s = seq![x];
    assert(s.drop_first() =~= Seq::<PaneId>::empty());
    assert(without(s.drop_first(), t) =~= Seq::<PaneId>::empty());
    if x != t {
        assert(seq![x] + Seq::<PaneId>::empty() =~= seq![x]);
    }
}

/// Leaving out a value that does not occur changes nothing.
pub proof fn lemma_without_absent(s: Seq<PaneId>, t: PaneId)
    requires
        !s.contains(t),
    ensures
        without(s, t) == s,
    decreases s.len(),
{
    if s.len() > 0 {
        assert(!s.drop_first().contains(t)) by {
            if s.drop_first().contains(t) {
                let i = choose|i: int| 0 <= i < s.drop_first().len() && s.drop_first()[i] == t;
                assert(s[i + 1] == t);
            }
        }
        lemma_without_absent(s.drop_first(), t);
        assert(s[0] != t) by {
            assert(s[0] == s[0]);
        }
        assert(seq![s[0]] + s.drop_first() =~= s);
    }
}

/// Inserting after the first `t` in a concatenation inserts in the part where `t` first occurs.
pub proof fn lemma_insert_after_concat(a: Seq<PaneId>, b: Seq<PaneId>, t: PaneId, n: PaneId)
    ensures
        insert_after_first(a + b, t, n) == if a.contains(t) {
            insert_after_first(a, t, n) + b
        } else {
            a + insert_after_first(b, t, n)
        },
    decreases a.len(),
{
    if a.len() == 0 {
        assert(a + b =~= b);
        assert(a + insert_after_first(b, t, n) =~= insert_after_first(b, t, n));
    } else {
        assert((a + b).drop_first() =~= a.drop_first() + b);
        assert((a + b)[0] == a[0]);
        lemma_insert_after_concat(a.drop_first(), b, t, n);
        if a[0] == t {
            assert(a.contains(t)) by {
                assert(a[0] == t);
            }
            assert(seq![t, n] + (a.drop_first() + b) =~= (seq![t, n] + a.drop_first()) + b);
        } else {
            assert(a.contains(t) == a.drop_first().contains(t)) by {
                if a.contains(t) {
                    let i = choose|i: int| 0 <= i < a.len() && a[i] == t;
                    assert(i > 0);
                    assert(a.drop_first()[i - 1] == t);
                }
                if a.drop_first().contains(t) {
                    let i = choose|i: int| 0 <= i < a.drop_first().len() && a.drop_first()[i] == t;
                    assert(a[i + 1] == t);
                }
            }
            if a.contains(t) {
                assert(seq![a[0]] + (insert_after_first(a.drop_first(), t, n) + b) =~= (seq![a[0]]
                    + insert_after_first(a.drop_first(), t, n)) + b);
            } else {
                assert(seq![a[0]] + (a.drop_first() + insert_after_first(b, t, n)) =~= a
                    + insert_after_first(b, t, n));
            }
        }
    }
}

/// What `spec_split_inner` does: it succeeds exactly when `target` is a pane of
/// the tree, never yields a leaf, adds `new_id` right after the first `target`,
/// and deepens the tree by at most one level.
pub proof fn lemma_split_inner(l: Layout, target: PaneId, dir: SplitDirection, new_id: PaneId)
    ensures
        l.spec_split_inner(target, dir, new_id) is Some <==> l.ids().contains(target),
        l.spec_split_inner(target, dir, new_id) matches Some(l2) ==> {
            &&& l2 is Split
            &&& l2.ids() == insert_after_first(l.ids(), target, new_id)
            &&& l2.spec_depth() <= l.spec_depth() + 1
        },
    decreases l,
{
    match l {
        Layout::Leaf(id) => {
            assert(l.ids() =~= seq![id]);
            assert(l.ids().contains(target) <==> id == target) by {
                if l.ids().contains(target) {
                    let i = choose|i: int| 0 <= i < l.ids().len() && l.ids()[i] == target;
                    assert(i == 0);
                }
                if id == target {
                    assert(l.ids()[0] == target);
                }
            }
            if id == target {
                let s = seq![id];
                assert(s.drop_first() =~= Seq::<PaneId>::empty());
                assert(insert_after_first(s, target, new_id) =~= seq![target, new_id]);
                assert(Layout::Leaf(target).ids() + Layout::Leaf(new_id).ids() =~= seq![
                    target,
                    new_id,
                ]);
                let l2 = Layout::Split {
                    direction: dir,
                    left: Box::new(Layout::Leaf(target)),
                    right: Box::new(Layout::Leaf(new_id)),
                    ratio_permille: HALF_PERMILLE,
                };
                assert(Layout::Leaf(target).spec_depth() == 0);
                assert(Layout::Leaf(new_id).spec_depth() == 0);
                assert(l2.spec_depth() == 1);
                assert(l2.ids() == insert_after_first(l.ids(), target, new_id));
            }
        },
        Layout::Split { direction, left, right, ratio_permille } => {
            lemma_split_inner(*left, target, dir, new_id);
            lemma_split_inner(*right, target, dir, new_id);
            lemma_insert_after_concat(left.ids(), right.ids(), target, new_id);
            assert(l.ids().contains(target) <==> left.ids().contains(target) || right.ids().contains(
                target,
            )) by {
                let a = left.ids();
                let b = right.ids();
                if l.ids().contains(target) {
                    let i = choose|i: int| 0 <= i < l.ids().len() && l.ids()[i] == target;
                    if i < a.len() {
                        assert(a[i] == target);
                    } else {
                        assert(b[i - a.len()] == target);
                    }
                }
                if a.contains(target) {
                    let i = choose|i: int| 0 <= i < a.len() && a[i] == target;
                    assert(l.ids()[i] == target);
                }
                if b.contains(target) {
                    let i = choose|i: int| 0 <= i < b.len() && b[i] == target;
                    assert(l.ids()[i + a.len()] == target);
                }
            }
        },
    }
}

/// What `spec_remove` does on a tree where `target` is not a pane: nothing.
pub proof fn lemma_remove_absent(l: Layout, target: PaneId)
    requires
        !l.ids().contains(target),
    ensures
        l.spec_remove(target) == Some(l),
    decreases l,
{
    match l {
        Layout::Leaf(id) => {
            assert(l.ids()[0] == id);
        },
        Layout::Split { direction, left, right, ratio_permille } => {
            lemma_concat_not_contains(left.ids(), right.ids(), target);
            lemma_remove_absent(*left, target);
            lemma_remove_absent(*right, target);
            match *left {
                Layout::Leaf(x) => {
                    assert(left.ids()[0] == x);
                },
                _ => {},
            }
            match *right {
                Layout::Leaf(x) => {
                    assert(right.ids()[0] == x);
                },
                _ => {},
            }
        },
    }
}

/// A value absent from a concatenation is absent from both parts.
pub proof fn lemma_concat_not_contains(a: Seq<PaneId>, b: Seq<PaneId>, t: PaneId)
    requires
        !(a + b).contains(t),
    ensures
        !a.contains(t),
        !b.contains(t),
{
    if a.contains(t) {
        let i = choose|i: int| 0 <= i < a.len() && a[i] == t;
        assert((a + b)[i] == t);
    }
    if b.contains(t) {
        let i = choose|i: int| 0 <= i < b.len() && b[i] == t;
        assert((a + b)[i + a.len()] == t);
    }
}

/// Membership and distinctness after leaving out `t`.
pub proof fn lemma_without_members(s: Seq<PaneId>, t: PaneId)
    ensures
        forall|x: PaneId| #[trigger] without(s, t).contains(x) <==> s.contains(x) && x != t,
        s.no_duplicates() ==> without(s, t).no_duplicates(),
    decreases s.len(),
{
    if s.len() > 0 {
        let r = s.drop_first();
        lemma_without_members(r, t);
        assert forall|x: PaneId| s.contains(x) <==> x == s[0] || r.contains(x) by {
            if s.contains(x) && x != s[0] {
                let i = choose|i: int| 0 <= i < s.len() && s[i] == x;
                assert(r[i - 1] == x);
            }
            if r.contains(x) {
                let i = choose|i: int| 0 <= i < r.len() && r[i] == x;
                assert(s[i + 1] == x);
            }
            if x == s[0] {
                assert(s[0] == x);
            }
        }
        if s[0] != t {
            let w = seq![s[0]] + without(r, t);
            assert forall|x: PaneId| #[trigger] w.contains(x) <==> x == s[0] || without(
                r,
                t,
            ).contains(x) by {
                if w.contains(x) && x != s[0] {
                    let i = choose|i: int| 0 <= i < w.len() && w[i] == x;
                    assert(without(r, t)[i - 1] == x);
                }
                if without(r, t).contains(x) {
                    let i = choose|i: int| 0 <= i < without(r, t).len() && without(r, t)[i] == x;
                    assert(w[i + 1] == x);
                }
                if x == s[0] {
                    assert(w[0] == x);
                }
            }
            if s.no_duplicates() {
                assert(r.no_duplicates());
                assert(!r.contains(s[0])) by {
                    if r.contains(s[0]) {
                        let i = choose|i: int| 0 <= i < r.len() && r[i] == s[0];
                        assert(s[i + 1] == s[0]);
                    }
                }
                assert forall|i: int, j: int|
                    0 <= i < w.len() && 0 <= j < w.len() && i != j implies w[i] != w[j] by {
                    if i == 0 && j > 0 {
                        assert(without(r, t).contains(w[j]));
                    } else if j == 0 && i > 0 {
                        assert(without(r, t).contains(w[i]));
                    }
                }
            }
        } else {
            if s.no_duplicates() {
                assert(r.no_duplicates());
            }
        }
    }
}

/// Membership and distinctness after inserting `n` after the first `t`.
pub proof fn lemma_insert_after_members(s: Seq<PaneId>, t: PaneId, n: PaneId)
    ensures
        forall|x: PaneId| #[trigger]
            insert_after_first(s, t, n).contains(x) <==> s.contains(x) || (x == n && s.contains(
                t,
            )),
        insert_after_first(s, t, n).len() == if s.contains(t) {
            s.len() + 1
        } else {
            s.len() + 0
        },
        s.no_duplicates() && !s.contains(n) ==> insert_after_first(s, t, n).no_duplicates(),
    decreases s.len(),
{
    if s.len() > 0 {
        let r = s.drop_first();
        let out = insert_after_first(s, t, n);
        lemma_insert_after_members(r, t, n);
        assert forall|x: PaneId| s.contains(x) <==> x == s[0] || r.contains(x) by {
            if s.contains(x) && x != s[0] {
                let i = choose|i: int| 0 <= i < s.len() && s[i] == x;
                assert(r[i - 1] == x);
            }
            if r.contains(x) {
                let i = choose|i: int| 0 <= i < r.len() && r[i] == x;
                assert(s[i + 1] == x);
            }
            if x == s[0] {
                assert(s[0] == x);
            }
        }
        if s[0] == t {
            assert(out == seq![t, n] + r);
            assert forall|x: PaneId| #[trigger] out.contains(x) <==> s.contains(x) || (x == n
                && s.contains(t)) by {
                if out.contains(x) && x != t && x != n {
                    let i = choose|i: int| 0 <= i < out.len() && out[i] == x;
                    assert(r[i - 2] == x);
                }
                if r.contains(x) {
                    let i = choose|i: int| 0 <= i < r.len() && r[i] == x;
                    assert(out[i + 2] == x);
                }
                if x == t {
                    assert(out[0] == x);
                }
                if x == n {
                    assert(out[1] == x);
                }
            }
            if s.no_duplicates() && !s.contains(n) {
                assert(!r.contains(t)) by {
                    if r.contains(t) {
                        let i = choose|i: int| 0 <= i < r.len() && r[i] == t;
                        assert(s[i + 1] == t);
                    }
                }
                assert forall|i: int, j: int|
                    0 <= i < out.len() && 0 <= j < out.len() && i != j implies out[i]
                    != out[j] by {
                    if i >= 2 && j >= 2 {
                        assert(s[i - 1] != s[j - 1]);
                    } else if i < 2 && j >= 2 {
                        assert(r.contains(out[j]));
                    } else if j < 2 && i >= 2 {
                        assert(r.contains(out[i]));
                    } else {
                        assert(s.contains(t)) by {
                            assert(s[0] == t);
                        }
                    }
                }
            }
        } else {
            let ir = insert_after_first(r, t, n);
            assert(out == seq![s[0]] + ir);
            assert(s.contains(t) <==> r.contains(t));
            assert forall|x: PaneId| #[trigger] out.contains(x) <==> x == s[0] || ir.contains(
                x,
            ) by {
                if out.contains(x) && x != s[0] {
                    let i = choose|i: int| 0 <= i < out.len() && out[i] == x;
                    assert(ir[i - 1] == x);
                }
                if ir.contains(x) {
                    let i = choose|i: int| 0 <= i < ir.len() && ir[i] == x;
                    assert(out[i + 1] == x);
                }
                if x == s[0] {
                    assert(out[0] == x);
                }
            }
            if s.no_duplicates() && !s.contains(n) {
                assert(r.no_duplicates());
                assert(!r.contains(n));
                assert(!ir.contains(s[0])) by {
                    if r.contains(s[0]) {
                        let i = choose|i: int| 0 <= i < r.len() && r[i] == s[0];
                        assert(s[i + 1] == s[0]);
                    }
                    assert(s.contains(n) == false);
                    assert(s[0] != n) by {
                        assert(s[0] == s[0]);
                    }
                }
                assert forall|i: int, j: int|
                    0 <= i < out.len() && 0 <= j < out.len() && i != j implies out[i]
                    != out[j] by {
                    if i == 0 && j > 0 {
                        assert(ir.contains(out[j]));
                    } else if j == 0 && i > 0 {
                        assert(ir.contains(out[i]));
                    }
                }
            }
        }
    }
}

/// Distinct elements of a concatenation: each part is distinct and they share nothing.
pub proof fn lemma_concat_no_duplicates(a: Seq<PaneId>, b: Seq<PaneId>)
    requires
        (a + b).no_duplicates(),
    ensures
        a.no_duplicates(),
        b.no_duplicates(),
        forall|x: PaneId| a.contains(x) ==> !b.contains(x),
{
    assert forall|i: int, j: int| 0 <= i < a.len() && 0 <= j < a.len() && i != j implies a[i]
        != a[j] by {
        assert((a + b)[i] == a[i] && (a + b)[j] == a[j]);
    }
    assert forall|i: int, j: int| 0 <= i < b.len() && 0 <= j < b.len() && i != j implies b[i]
        != b[j] by {
        assert((a + b)[i + a.len()] == b[i] && (a + b)[j + a.len()] == b[j]);
    }
    assert forall|x: PaneId| a.contains(x) implies !b.contains(x) by {
        let i = choose|i: int| 0 <= i < a.len() && a[i] == x;
        if b.contains(x) {
            let j = choose|j: int| 0 <= j < b.len() && b[j] == x;
            assert((a + b)[i] == (a + b)[j + a.len()]);
        }
    }
}

/// What `spec_remove` does: it fails only on the single leaf `target`, never
/// deepens the tree, and on a tree of distinct panes leaves out exactly `target`.
pub proof fn lemma_remove(l: Layout, target: PaneId)
    ensures
        l.spec_remove(target) is None <==> is_leaf_of(l, target),
        l.spec_remove(target) matches Some(l2) ==> {
            &&& l2.spec_depth() <= l.spec_depth()
            &&& l.ids().no_duplicates() ==> l2.ids() == without(l.ids(), target)
        },
    decreases l,
{
    match l {
        Layout::Leaf(id) => {
            if id != target {
                lemma_without_singleton(id, target);
            }
        },
        Layout::Split { direction, left, right, ratio_permille } => {
            lemma_remove(*left, target);
            lemma_remove(*right, target);
            lemma_without_concat(left.ids(), right.ids(), target);
            if l.ids().no_duplicates() {
                lemma_concat_no_duplicates(left.ids(), right.ids());
            }
            if is_leaf_of(*left, target) {
                let a = left.ids();
                assert(a =~= seq![target]);
                lemma_without_singleton(target, target);
                if l.ids().no_duplicates() {
                    assert(a.contains(target)) by {
                        assert(a[0] == target);
                    }
                    lemma_without_absent(right.ids(), target);
                    assert(Seq::<PaneId>::empty() + right.ids() =~= right.ids());
                }
            } else if is_leaf_of(*right, target) {
                let b = right.ids();
                assert(b =~= seq![target]);
                lemma_without_singleton(target, target);
                if l.ids().no_duplicates() {
                    assert(b.contains(target)) by {
                        assert(b[0] == target);
                    }
                    lemma_without_absent(left.ids(), target);
                    assert(left.ids() + Seq::<PaneId>::empty() =~= left.ids());
                }
            }
        },
    }
}

/// Splitting a pane and then removing the pane just created gives back the
/// tree it started from, whenever the new pane id was not already in use.
pub proof fn law_split_then_remove_restores(
    l: Layout,
    target: PaneId,
    dir: SplitDirection,
    new_id: PaneId,
)
    requires
        !l.ids().contains(new_id),
        l.spec_split_inner(target, dir, new_id) is Some,
    ensures
        l.spec_split_inner(target, dir, new_id).unwrap().spec_remove(new_id) == Some(l),
    decreases l,
{
    lemma_split_inner(l, target, dir, new_id);
    match l {
        Layout::Leaf(id) => {
            assert(l.ids()[0] == id);
        },
        Layout::Split { direction, left, right, ratio_permille } => {
            lemma_concat_not_contains(left.ids(), right.ids(), new_id);
            lemma_split_inner(*left, target, dir, new_id);
            lemma_split_inner(*right, target, dir, new_id);
            lemma_remove_absent(*left, new_id);
            lemma_remove_absent(*right, new_id);
            match left.spec_split_inner(target, dir, new_id) {
                Some(nl) => {
                    law_split_then_remove_restores(*left, target, dir, new_id);
                    match *right {
                        Layout::Leaf(x) => {
                            assert(right.ids()[0] == x);
                        },
                        _ => {},
                    }
                },
                None => {
                    law_split_then_remove_restores(*right, target, dir, new_id);
                    match *left {
                        Layout::Leaf(x) => {
                            assert(left.ids()[0] == x);
                        },
                        _ => {},
                    }
                },
            }
        },
    }
}

/// Setting a split ratio keeps the panes, the depth and the first pane of
/// the tree, and afterwards that split reports the clamped ratio.
pub proof fn law_set_ratio_then_get(l: Layout, d: PaneId, r: u32)
    ensures
        l.spec_set_ratio(d, r).ids() == l.ids(),
        l.spec_set_ratio(d, r).spec_depth() == l.spec_depth(),
        l.spec_set_ratio(d, r).spec_first_pane() == l.spec_first_pane(),
        l.spec_set_ratio(d, r).spec_get_ratio(d) == match l.spec_get_ratio(d) {
            Some(_) => Some(clamp_ratio(r)),
            None => None::<u32>,
        },
    decreases l,
{
    match l {
        Layout::Leaf(_) => {},
        Layout::Split { direction, left, right, ratio_permille } => {
            law_set_ratio_then_get(*left, d, r);
            law_set_ratio_then_get(*right, d, r);
        },
    }
}

/// Splitting succeeds exactly when the tree is less than `MAX_DEPTH` deep and
/// `target` is one of its panes; the result holds `new_id` right after
/// `target`, is at most `MAX_DEPTH` deep, and keeps the panes distinct when
/// they were and `new_id` was not yet in use.
pub proof fn law_split(l: Layout, target: PaneId, dir: SplitDirection, new_id: PaneId)
    ensures
        l.spec_split(target, dir, new_id) is Some <==> l.spec_depth() < Layout::MAX_DEPTH
            && l.ids().contains(target),
        l.spec_split(target, dir, new_id) matches Some(l2) ==> {
            &&& l2.ids() == insert_after_first(l.ids(), target, new_id)
            &&& l2.ids().len() == l.ids().len() + 1
            &&& l2.spec_depth() <= Layout::MAX_DEPTH
            &&& (l.ids().no_duplicates() && !l.ids().contains(new_id)) ==> l2.ids().no_duplicates()
        },
{
    lemma_split_inner(l, target, dir, new_id);
    lemma_insert_after_members(l.ids(), target, new_id);
}

/// Removing a pane from a tree of distinct panes fails only on the single
/// leaf `target`; otherwise exactly `target` leaves, the rest keep their
/// order and stay distinct, and the tree gets no deeper.
pub proof fn law_remove(l: Layout, target: PaneId)
    requires
        l.ids().no_duplicates(),
    ensures
        l.spec_remove(target) is None <==> l == Layout::Leaf(target),
        l.spec_remove(target) matches Some(l2) ==> {
            &&& l2.ids() == without(l.ids(), target)
            &&& l2.ids().no_duplicates()
            &&& forall|x: PaneId| #[trigger]
                l2.ids().contains(x) <==> l.ids().contains(x) && x != target
            &&& l2.spec_depth() <= l.spec_depth()
        },
{
    lemma_remove(l, target);
    lemma_without_members(l.ids(), target);
}

/// Whether `sub` is `l` itself or a node somewhere below it.
pub open spec fn has_node(l: Layout, sub: Layout) -> bool
    decreases l,
{
    l == sub || match l {
        Layout::Leaf(_) => false,
        Layout::Split { left, right, .. } => has_node(*left, sub) || has_node(*right, sub),
    }
}

/// Splitting a pane puts, where the pane stood, a split in the direction
/// asked for (`Horizontal` top / bottom, `Vertical` left / right) whose
/// first (left / top) child is the pane and whose second is the new pane,
/// at half and half. A lone pane becomes exactly that split.
pub proof fn law_split_direction(l: Layout, target: PaneId, dir: SplitDirection, new_id: PaneId)
    ensures
        Layout::Leaf(target).spec_split_inner(target, dir, new_id) == Some(
            Layout::Split {
                direction: dir,
                left: Box::new(Layout::Leaf(target)),
                right: Box::new(Layout::Leaf(new_id)),
                ratio_permille: 500,
            },
        ),
        l.spec_split_inner(target, dir, new_id) matches Some(l2) ==> has_node(
            l2,
            Layout::Split {
                direction: dir,
                left: Box::new(Layout::Leaf(target)),
                right: Box::new(Layout::Leaf(new_id)),
                ratio_permille: 500,
            },
        ),
        l.spec_split(target, dir, new_id) matches Some(l2) ==> has_node(
            l2,
            Layout::Split {
                direction: dir,
                left: Box::new(Layout::Leaf(target)),
                right: Box::new(Layout::Leaf(new_id)),
                ratio_permille: 500,
            },
        ),
    decreases l,
{
    match l {
        Layout::Leaf(_) => {},
        Layout::Split { direction, left, right, ratio_permille } => {
            law_split_direction(*left, target, dir, new_id);
            law_split_direction(*right, target, dir, new_id);
        },
    }
}

/// A split ratio is kept between 100 and 900 per mille: one in that range
/// stands as given, a smaller one becomes 100 and a larger one 900. Setting
/// the ratio of a split addressed by its left child's first pane changes
/// that ratio alone.
pub proof fn law_ratio_clamped(r: u32, dir: SplitDirection, a: PaneId, right: Layout, old: u32)
    ensures
        100 <= clamp_ratio(r) <= 900,
        100 <= r <= 900 ==> clamp_ratio(r) == r,
        r < 100 ==> clamp_ratio(r) == 100,
        r > 900 ==> clamp_ratio(r) == 900,
        (Layout::Split {
            direction: dir,
            left: Box::new(Layout::Leaf(a)),
            right: Box::new(right),
            ratio_permille: old,
        }).spec_set_ratio(a, r) == (Layout::Split {
            direction: dir,
            left: Box::new(Layout::Leaf(a)),
            right: Box::new(right),
            ratio_permille: clamp_ratio(r),
        }),
{
}

} // verus!
