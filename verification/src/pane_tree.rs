//! The pane layout of a workspace as a binary tree of panes, each with its bell attention flag.
use crate::browser_refs::{parse_u64, read_u64};
use crate::ids::{hyphenated, uuid_text};
use crate::inbox_actions::{first_where, lemma_first_where, lemma_first_where_at};
use crate::text::{chars_equal, chars_of, slice_chars};
use crate::selection::{after_removal, spec_after_removal};
use vstd::prelude::*;

verus! {

/// Directional focus movement between panes.
#[derive(PartialEq, Eq, Structural, Clone, Copy)]
pub enum FocusDirection {
    Left,
    Right,
    Up,
    Down,
}

/// Recursive pane layout: a leaf pane, or a split holding two subtrees.
pub enum PaneTree {
    Leaf { pane_id: u64, has_attention: bool },
    Split { start: Box<PaneTree>, end: Box<PaneTree> },
}

/// The panes of a tree in traversal order (start before end), with their attention flags.
pub open spec fn leaves(t: PaneTree) -> Seq<(u64, bool)>
    decreases t,
{
    match t {
        PaneTree::Leaf { pane_id, has_attention } => seq![(pane_id, has_attention)],
        PaneTree::Split { start, end } => leaves(*start) + leaves(*end),
    }
}

/// The pane ids of some panes.
pub open spec fn ids(ls: Seq<(u64, bool)>) -> Seq<u64> {
    ls.map_values(|l: (u64, bool)| l.0)
}

/// Index of the first pane with `id`, or the count.
pub open spec fn index_of(ls: Seq<(u64, bool)>, id: u64) -> int
    decreases ls.len(),
{
    if ls.len() == 0 {
        0
    } else if ls[0].0 == id {
        0
    } else {
        1 + index_of(ls.drop_first(), id)
    }
}

/// `index_of` is the first index holding `id`, or the count.
pub proof fn lemma_index_of(ls: Seq<(u64, bool)>, id: u64)
    ensures
        0 <= index_of(ls, id) <= ls.len(),
        index_of(ls, id) < ls.len() ==> ls[index_of(ls, id)].0 == id,
        forall|j: int| 0 <= j < index_of(ls, id) ==> (#[trigger] ls[j]).0 != id,
    decreases ls.len(),
{
    if ls.len() > 0 && ls[0].0 != id {
        lemma_index_of(ls.drop_first(), id);
        assert forall|j: int| 0 <= j < index_of(ls, id) implies (#[trigger] ls[j]).0 != id by {
            if j > 0 {
                assert(ls[j] == ls.drop_first()[j - 1]);
            }
        }
    }
}

/// Setting attention on a pane the tree does not hold leaves the tree as it is.
pub proof fn lemma_set_attention_unfound(t: PaneTree, id: u64, value: bool)
    ensures
        !spec_set_attention(t, id, value).1 ==> spec_set_attention(t, id, value).0 == t,
    decreases t,
{
    if let PaneTree::Split { start, end } = t {
        lemma_set_attention_unfound(*start, id, value);
        lemma_set_attention_unfound(*end, id, value);
    }
}

/// The first pane of a concatenation holding `id` is found in the first part when it holds one.
proof fn lemma_index_of_concat(a: Seq<(u64, bool)>, b: Seq<(u64, bool)>, id: u64)
    ensures
        index_of(a + b, id) == (if index_of(a, id) < a.len() {
            index_of(a, id)
        } else {
            a.len() + index_of(b, id)
        }),
    decreases a.len(),
{
    if a.len() == 0 {
        assert(a + b =~= b);
    } else {
        assert((a + b)[0] == a[0]);
        if a[0].0 != id {
            assert((a + b).drop_first() =~= a.drop_first() + b);
            lemma_index_of_concat(a.drop_first(), b, id);
        }
    }
}

/// Every tree has at least one pane.
pub proof fn lemma_leaves_nonempty(t: PaneTree)
    ensures
        leaves(t).len() >= 1,
    decreases t,
{
    if let PaneTree::Split { start, end } = t {
        lemma_leaves_nonempty(*start);
        lemma_leaves_nonempty(*end);
    }
}

/// A tree after setting the attention of its first pane with `id`; unchanged without one.
pub open spec fn spec_set_attention(t: PaneTree, id: u64, value: bool) -> (PaneTree, bool)
    decreases t,
{
    match t {
        PaneTree::Leaf { pane_id, has_attention } => if pane_id == id {
            (PaneTree::Leaf { pane_id, has_attention: value }, true)
        } else {
            (t, false)
        },
        PaneTree::Split { start, end } => {
            let (s, found) = spec_set_attention(*start, id, value);
            if found {
                (PaneTree::Split { start: Box::new(s), end }, true)
            } else {
                let (e, found_end) = spec_set_attention(*end, id, value);
                (PaneTree::Split { start, end: Box::new(e) }, found_end)
            }
        },
    }
}

/// A tree without the leaf `id`: the split holding it is replaced by the sibling, and the first
/// pane of the sibling is reported; `None` when no leaf below a split is `id`.
pub open spec fn spec_remove(t: PaneTree, id: u64) -> Option<(PaneTree, u64)>
    decreases t,
{
    match t {
        PaneTree::Leaf { .. } => None,
        PaneTree::Split { start, end } => if start.is_leaf_with(id) {
            Some((*end, leaves(*end)[0].0))
        } else if end.is_leaf_with(id) {
            Some((*start, leaves(*start)[0].0))
        } else {
            match spec_remove(*start, id) {
                Some((s, survivor)) => Some((PaneTree::Split { start: Box::new(s), end }, survivor)),
                None => match spec_remove(*end, id) {
                    Some((e, survivor)) => Some((PaneTree::Split { start, end: Box::new(e) }, survivor)),
                    None => None,
                },
            }
        },
    }
}

/// The pane to focus from `active` in `direction`: the previous pane in traversal order for left
/// and up, the next for right and down.
pub open spec fn spec_adjacent(ls: Seq<(u64, bool)>, active: u64, direction: FocusDirection) -> Option<u64> {
    let pos = index_of(ls, active);
    if pos >= ls.len() {
        None
    } else if direction == FocusDirection::Left || direction == FocusDirection::Up {
        if pos > 0 {
            Some(ls[pos - 1].0)
        } else {
            None
        }
    } else if pos + 1 < ls.len() {
        Some(ls[pos + 1].0)
    } else {
        None
    }
}

impl PaneTree {
    /// Whether this is the leaf `id`.
    pub open spec fn is_leaf_with(&self, id: u64) -> bool {
        self matches PaneTree::Leaf { pane_id, .. } && pane_id == id
    }

    /// Whether this is the leaf `id`.
    fn leaf_is(&self, id: u64) -> (r: bool)
        ensures
            r == self.is_leaf_with(id),
    {
        match self {
            PaneTree::Leaf { pane_id, .. } => *pane_id == id,
            _ => false,
        }
    }

    /// Return the first (leftmost/topmost) pane_id in a subtree.
    pub fn first_pane_id(&self) -> (id: u64)
        ensures
            leaves(*self).len() >= 1,
            id == leaves(*self)[0].0,
        decreases self,
    {
        proof {
            lemma_leaves_nonempty(*self);
        }
        match self {
            PaneTree::Leaf { pane_id, .. } => *pane_id,
            PaneTree::Split { start, .. } => {
                proof {
                    lemma_leaves_nonempty(**start);
                }
                start.first_pane_id()
            },
        }
    }

    /// Collect pane IDs in split traversal order for directional focus and restore fallback.
    pub fn collect_leaves_in_order(&self, out: &mut Vec<u64>)
        ensures
            final(out)@ == old(out)@ + ids(leaves(*self)),
        decreases self,
    {
        match self {
            PaneTree::Leaf { pane_id, .. } => {
                out.push(*pane_id);
                assert(ids(leaves(*self)) =~= seq![*pane_id]);
            },
            PaneTree::Split { start, end } => {
                start.collect_leaves_in_order(out);
                end.collect_leaves_in_order(out);
                assert(ids(leaves(*self)) =~= ids(leaves(**start)) + ids(leaves(**end)));
            },
        }
    }

    /// Returns true if any leaf in this subtree has attention.
    pub fn any_attention(&self) -> (r: bool)
        ensures
            r == exists|i: int| 0 <= i < leaves(*self).len() && (#[trigger] leaves(*self)[i]).1,
        decreases self,
    {
        match self {
            PaneTree::Leaf { has_attention, .. } => {
                assert(leaves(*self)[0].1 == *has_attention);
                *has_attention
            },
            PaneTree::Split { start, end } => {
                let a = start.any_attention();
                let b = end.any_attention();
                let ghost l = leaves(**start);
                let ghost r = leaves(**end);
                assert(leaves(*self) == l + r);
                proof {
                    if a {
                        let i = choose|i: int| 0 <= i < l.len() && (#[trigger] l[i]).1;
                        assert((l + r)[i] == l[i]);
                    }
                }
                proof {
                    if b {
                        let i = choose|i: int| 0 <= i < r.len() && (#[trigger] r[i]).1;
                        assert((l + r)[l.len() + i] == r[i]);
                    }
                }
                if !a && !b {
                    assert forall|i: int| 0 <= i < (l + r).len() implies !(#[trigger] (l + r)[i]).1 by {
                        if i < l.len() {
                            assert((l + r)[i] == l[i]);
                        } else {
                            assert((l + r)[i] == r[i - l.len()]);
                        }
                    }
                }
                a || b
            },
        }
    }

    /// Check if a specific pane has attention.
    pub fn pane_has_attention(&self, target_pane_id: u64) -> (r: bool)
        ensures
            r == exists|i: int| 0 <= i < leaves(*self).len() && #[trigger] leaves(*self)[i] == (target_pane_id, true),
        decreases self,
    {
        match self {
            PaneTree::Leaf { pane_id, has_attention } => {
                assert(leaves(*self)[0] == (*pane_id, *has_attention));
                *pane_id == target_pane_id && *has_attention
            },
            PaneTree::Split { start, end } => {
                let a = start.pane_has_attention(target_pane_id);
                let b = end.pane_has_attention(target_pane_id);
                let ghost l = leaves(**start);
                let ghost r = leaves(**end);
                assert(leaves(*self) == l + r);
                proof {
                    if a {
                        let i = choose|i: int| 0 <= i < l.len() && #[trigger] l[i] == (target_pane_id, true);
                        assert((l + r)[i] == l[i]);
                    }
                }
                proof {
                    if b {
                        let i = choose|i: int| 0 <= i < r.len() && #[trigger] r[i] == (target_pane_id, true);
                        assert((l + r)[l.len() + i] == r[i]);
                    }
                }
                if !a && !b {
                    assert forall|i: int| 0 <= i < (l + r).len() implies #[trigger] (l + r)[i] != (
                    target_pane_id, true) by {
                        if i < l.len() {
                            assert((l + r)[i] == l[i]);
                        } else {
                            assert((l + r)[i] == r[i - l.len()]);
                        }
                    }
                }
                a || b
            },
        }
    }

    /// Set has_attention on the leaf matching pane_id. Returns true if found.
    pub fn set_attention(&mut self, target_pane_id: u64, value: bool) -> (found: bool)
        ensures
            (*final(self), found) == spec_set_attention(*old(self), target_pane_id, value),
        decreases *old(self),
    {
        match self {
            PaneTree::Leaf { pane_id, has_attention } => {
                if *pane_id == target_pane_id {
                    *has_attention = value;
                    true
                } else {
                    false
                }
            },
            PaneTree::Split { start, end } => {
                let ghost before = **start;
                if start.set_attention(target_pane_id, value) {
                    true
                } else {
                    proof {
                        lemma_set_attention_unfound(before, target_pane_id, value);
                    }
                    end.set_attention(target_pane_id, value)
                }
            },
        }
    }

    /// Clear attention on all leaves in this subtree.
    pub fn clear_all_attention(&mut self)
        ensures
            ids(leaves(*final(self))) == ids(leaves(*old(self))),
            forall|i: int| 0 <= i < leaves(*final(self)).len() ==> !(#[trigger] leaves(*final(self))[i]).1,
        decreases *old(self),
    {
        match self {
            PaneTree::Leaf { has_attention, .. } => {
                *has_attention = false;
            },
            PaneTree::Split { start, end } => {
                start.clear_all_attention();
                end.clear_all_attention();
                let ghost l = leaves(**start);
                let ghost r = leaves(**end);
                assert forall|i: int| 0 <= i < (l + r).len() implies !(#[trigger] (l + r)[i]).1 by {
                    if i < l.len() {
                        assert((l + r)[i] == l[i]);
                    } else {
                        assert((l + r)[i] == r[i - l.len()]);
                    }
                }
            },
        }
        proof {
            if let PaneTree::Split { start, end } = *old(self) {
                assert(ids(leaves(*old(self))) =~= ids(leaves(*start)) + ids(leaves(*end)));
            }
            let cur = *self;
            if let PaneTree::Split { start, end } = cur {
                assert(ids(leaves(cur)) =~= ids(leaves(*start)) + ids(leaves(*end)));
            }
        }
    }

    /// The tree without the leaf `target_id`, and the first pane of the sibling that takes its
    /// place; unchanged with `None` when no leaf below a split is `target_id`.
    fn without_leaf(self, target_id: u64) -> (r: (PaneTree, Option<u64>))
        ensures
            match spec_remove(self, target_id) {
                Some((t, survivor)) => r.0 == t && r.1 == Some(survivor),
                None => r.0 == self && r.1 is None,
            },
        decreases self,
    {
        match self {
            PaneTree::Leaf { .. } => (self, None),
            PaneTree::Split { start, end } => {
                if start.leaf_is(target_id) {
                    let survivor = end.first_pane_id();
                    return (*end, Some(survivor));
                }
                if end.leaf_is(target_id) {
                    let survivor = start.first_pane_id();
                    return (*start, Some(survivor));
                }
                let (s, found) = start.without_leaf(target_id);
                if found.is_some() {
                    return (PaneTree::Split { start: Box::new(s), end }, found);
                }
                let (e, found) = end.without_leaf(target_id);
                (PaneTree::Split { start: Box::new(s), end: Box::new(e) }, found)
            },
        }
    }

    /// Remove leaf `target_id` from the tree. Returns the surviving sibling's pane_id.
    pub fn remove_leaf_from_tree(&mut self, target_id: u64) -> (r: Option<u64>)
        ensures
            match spec_remove(*old(self), target_id) {
                Some((t, survivor)) => *final(self) == t && r == Some(survivor),
                None => *final(self) == *old(self) && r is None,
            },
    {
        let mut taken = PaneTree::Leaf { pane_id: 0, has_attention: false };
        std::mem::swap(&mut taken, self);
        let (t, r) = taken.without_leaf(target_id);
        *self = t;
        r
    }
}

/// Deepest split nesting a restored layout may have.
pub const MAX_LAYOUT_DEPTH: usize = 32;

/// Whether no split of a tree below nesting `depth` lies deeper than `MAX_LAYOUT_DEPTH`.
pub open spec fn depth_ok(t: PaneTree, depth: nat) -> bool
    decreases t,
{
    depth <= MAX_LAYOUT_DEPTH && match t {
        PaneTree::Split { start, end } => depth_ok(*start, depth + 1) && depth_ok(*end, depth + 1),
        PaneTree::Leaf { .. } => true,
    }
}

impl PaneTree {
    /// Reject an over-deep tree before constructing any GTK objects or scheduling layout callbacks.
    pub fn valid_depth(&self, depth: usize) -> (r: bool)
        ensures
            r == depth_ok(*self, depth as nat),
        decreases self,
    {
        if depth > MAX_LAYOUT_DEPTH {
            return false;
        }
        match self {
            PaneTree::Split { start, end } => start.valid_depth(depth + 1) && end.valid_depth(depth + 1),
            PaneTree::Leaf { .. } => true,
        }
    }
}

/// Find the pane adjacent to `active_id` in `direction`.
/// Strategy: collect ordered leaf positions and find the neighbor.
pub fn find_adjacent(root: &PaneTree, active_id: u64, direction: FocusDirection) -> (r: Option<u64>)
    ensures
        r == spec_adjacent(leaves(*root), active_id, direction),
{
    let mut order: Vec<u64> = Vec::new();
    root.collect_leaves_in_order(&mut order);
    let ghost ls = leaves(*root);
    assert(order@ =~= ids(ls));
    proof {
        lemma_index_of(ls, active_id);
    }
    let mut pos: usize = 0;
    while pos < order.len() && order[pos] != active_id
        invariant
            order@ == ids(ls),
            pos <= order@.len(),
            forall|j: int| 0 <= j < pos ==> (#[trigger] ls[j]).0 != active_id,
        decreases order@.len() - pos,
    {
        assert(order@[pos as int] == ls[pos as int].0);
        pos = pos + 1;
    }
    if pos < order.len() {
        assert(ls[pos as int].0 == active_id);
    }
    assert(pos == index_of(ls, active_id));
    if pos >= order.len() {
        return None;
    }
    match direction {
        FocusDirection::Left | FocusDirection::Up => {
            if pos > 0 {
                Some(order[pos - 1])
            } else {
                None
            }
        },
        FocusDirection::Right | FocusDirection::Down => {
            if pos + 1 < order.len() {
                Some(order[pos + 1])
            } else {
                None
            }
        },
    }
}

/// Whether the pane ids of a sequence are distinct.
pub open spec fn distinct_ids(ls: Seq<(u64, bool)>) -> bool {
    forall|i: int, j: int| 0 <= i < j < ls.len() ==> ls[i].0 != ls[j].0
}

/// Setting attention marks exactly one pane: with distinct pane ids, a pane present in the tree
/// afterwards has attention exactly when set to, and every other pane keeps its flag.
pub proof fn law_set_attention_is_local(t: PaneTree, id: u64, value: bool)
    requires
        distinct_ids(leaves(t)),
    ensures
        spec_set_attention(t, id, value).1 <==> index_of(leaves(t), id) < leaves(t).len(),
        spec_set_attention(t, id, value).1 ==> leaves(spec_set_attention(t, id, value).0) == leaves(
            t,
        ).update(index_of(leaves(t), id), (id, value)),
        !spec_set_attention(t, id, value).1 ==> spec_set_attention(t, id, value).0 == t,
    decreases t,
{
    lemma_index_of(leaves(t), id);
    match t {
        PaneTree::Leaf { pane_id, has_attention } => {
            if pane_id == id {
                assert(leaves(spec_set_attention(t, id, value).0) =~= leaves(t).update(0, (id, value)));
            }
        },
        PaneTree::Split { start, end } => {
            let l = leaves(*start);
            let r = leaves(*end);
            assert(distinct_ids(l)) by {
                assert forall|i: int, j: int| 0 <= i < j < l.len() implies l[i].0 != l[j].0 by {
                    assert((l + r)[i] == l[i] && (l + r)[j] == l[j]);
                }
            }
            assert(distinct_ids(r)) by {
                assert forall|i: int, j: int| 0 <= i < j < r.len() implies r[i].0 != r[j].0 by {
                    assert((l + r)[l.len() + i] == r[i] && (l + r)[l.len() + j] == r[j]);
                }
            }
            law_set_attention_is_local(*start, id, value);
            law_set_attention_is_local(*end, id, value);
            lemma_index_of_concat(l, r, id);
            lemma_index_of(l, id);
            lemma_index_of(r, id);
            let (s, found) = spec_set_attention(*start, id, value);
            if found {
                assert(leaves(spec_set_attention(t, id, value).0) =~= (l + r).update(index_of(l, id), (id, value)));
            } else {
                let (e, found_end) = spec_set_attention(*end, id, value);
                if found_end {
                    assert(leaves(spec_set_attention(t, id, value).0) =~= (l + r).update(
                        l.len() + index_of(r, id),
                        (id, value),
                    ));
                }
            }
        },
    }
}

/// Removing a leaf keeps every other pane in order: the panes after removal are the panes
/// before with the removed one taken out.
pub proof fn law_remove_keeps_order(t: PaneTree, id: u64)
    requires
        spec_remove(t, id) is Some,
        distinct_ids(leaves(t)),
    ensures
        index_of(leaves(t), id) < leaves(t).len(),
        leaves(spec_remove(t, id).unwrap().0) == leaves(t).remove(index_of(leaves(t), id)),
    decreases t,
{
    match t {
        PaneTree::Leaf { .. } => {},
        PaneTree::Split { start, end } => {
            let l = leaves(*start);
            let r = leaves(*end);
            lemma_index_of_concat(l, r, id);
            lemma_index_of(l, id);
            lemma_index_of(r, id);
            lemma_leaves_nonempty(*start);
            lemma_leaves_nonempty(*end);
            assert(distinct_ids(l)) by {
                assert forall|i: int, j: int| 0 <= i < j < l.len() implies l[i].0 != l[j].0 by {
                    assert((l + r)[i] == l[i] && (l + r)[j] == l[j]);
                }
            }
            assert(distinct_ids(r)) by {
                assert forall|i: int, j: int| 0 <= i < j < r.len() implies r[i].0 != r[j].0 by {
                    assert((l + r)[l.len() + i] == r[i] && (l + r)[l.len() + j] == r[j]);
                }
            }
            if start.is_leaf_with(id) {
                assert(l.len() == 1 && l[0].0 == id);
                assert((l + r).remove(0) =~= r);
            } else if end.is_leaf_with(id) {
                assert(r.len() == 1 && r[0].0 == id);
                assert forall|i: int| 0 <= i < l.len() implies l[i].0 != id by {
                    assert((l + r)[i] == l[i]);
                    assert((l + r)[l.len() as int] == r[0]);
                }
                lemma_index_of(l, id);
                assert((l + r).remove(l.len() as int) =~= l);
            } else {
                match spec_remove(*start, id) {
                    Some((s, survivor)) => {
                        law_remove_keeps_order(*start, id);
                        assert(leaves(spec_remove(t, id).unwrap().0) =~= (l + r).remove(index_of(l, id)));
                    },
                    None => {
                        law_remove_keeps_order(*end, id);
                        assert forall|i: int| 0 <= i < l.len() implies l[i].0 != id by {
                            assert((l + r)[i] == l[i]);
                            let k = index_of(r, id);
                            assert((l + r)[l.len() + k] == r[k]);
                        }
                        lemma_index_of(l, id);
                        assert(leaves(spec_remove(t, id).unwrap().0) =~= (l + r).remove(
                            l.len() + index_of(r, id),
                        ));
                    },
                }
            }
        },
    }
}

/// A tree after splitting its first pane `id`: the pane becomes a split of itself and a new pane
/// `new_id` without attention, after it; unchanged without such a pane.
pub open spec fn spec_split(t: PaneTree, id: u64, new_id: u64) -> (PaneTree, bool)
    decreases t,
{
    match t {
        PaneTree::Leaf { pane_id, .. } => if pane_id == id {
            (
                PaneTree::Split {
                    start: Box::new(t),
                    end: Box::new(PaneTree::Leaf { pane_id: new_id, has_attention: false }),
                },
                true,
            )
        } else {
            (t, false)
        },
        PaneTree::Split { start, end } => {
            let (s, found) = spec_split(*start, id, new_id);
            if found {
                (PaneTree::Split { start: Box::new(s), end }, true)
            } else {
                let (e, found_end) = spec_split(*end, id, new_id);
                (PaneTree::Split { start, end: Box::new(e) }, found_end)
            }
        },
    }
}

impl PaneTree {
    /// The tree with its first pane `id` split into itself and pane `new_id`, and whether the
    /// pane was found.
    fn split_at(self, id: u64, new_id: u64) -> (r: (PaneTree, bool))
        ensures
            r == spec_split(self, id, new_id),
        decreases self,
    {
        match self {
            PaneTree::Leaf { pane_id, has_attention } => {
                let leaf = PaneTree::Leaf { pane_id, has_attention };
                if pane_id == id {
                    let split = PaneTree::Split {
                        start: Box::new(leaf),
                        end: Box::new(PaneTree::Leaf { pane_id: new_id, has_attention: false }),
                    };
                    (split, true)
                } else {
                    (leaf, false)
                }
            },
            PaneTree::Split { start, end } => {
                let ghost first = *start;
                let (s, found) = start.split_at(id, new_id);
                if found {
                    return (PaneTree::Split { start: Box::new(s), end }, true);
                }
                proof {
                    lemma_split_unfound(first, id, new_id);
                }
                let (e, found_end) = end.split_at(id, new_id);
                (PaneTree::Split { start: Box::new(s), end: Box::new(e) }, found_end)
            },
        }
    }

    /// Replace the leaf `target_id` with a split of it and a new pane `new_id` placed after it;
    /// false, with the tree unchanged, when no leaf is `target_id`.
    pub fn split_leaf(&mut self, target_id: u64, new_id: u64) -> (found: bool)
        ensures
            (*final(self), found) == spec_split(*old(self), target_id, new_id),
    {
        let mut taken = PaneTree::Leaf { pane_id: 0, has_attention: false };
        std::mem::swap(&mut taken, self);
        let (t, found) = taken.split_at(target_id, new_id);
        *self = t;
        found
    }
}

/// An unfound pane leaves the tree unchanged.
proof fn lemma_split_unfound(t: PaneTree, id: u64, new_id: u64)
    ensures
        !spec_split(t, id, new_id).1 ==> spec_split(t, id, new_id).0 == t,
    decreases t,
{
    if let PaneTree::Split { start, end } = t {
        lemma_split_unfound(*start, id, new_id);
        lemma_split_unfound(*end, id, new_id);
    }
}

/// Splitting a pane inserts the new pane right after it in traversal order and keeps every
/// other pane; splitting an absent pane changes nothing.
pub proof fn law_split_inserts_after(t: PaneTree, id: u64, new_id: u64)
    ensures
        spec_split(t, id, new_id).1 == (index_of(leaves(t), id) < leaves(t).len()),
        spec_split(t, id, new_id).1 ==> leaves(spec_split(t, id, new_id).0) == leaves(t).insert(
            index_of(leaves(t), id) + 1,
            (new_id, false),
        ),
        !spec_split(t, id, new_id).1 ==> spec_split(t, id, new_id).0 == t,
    decreases t,
{
    lemma_split_unfound(t, id, new_id);
    lemma_index_of(leaves(t), id);
    match t {
        PaneTree::Leaf { pane_id, has_attention } => {
            if pane_id == id {
                let new_leaf = PaneTree::Leaf { pane_id: new_id, has_attention: false };
                assert(leaves(new_leaf) == seq![(new_id, false)]);
                assert(leaves(t) == seq![(pane_id, has_attention)]);
                assert(spec_split(t, id, new_id).0 == PaneTree::Split { start: Box::new(t), end: Box::new(new_leaf) });
                assert(leaves(spec_split(t, id, new_id).0) == leaves(t) + leaves(new_leaf));
                assert(leaves(spec_split(t, id, new_id).0) =~= seq![(pane_id, has_attention), (new_id, false)]);
                assert(leaves(t).insert(1, (new_id, false)) =~= seq![(pane_id, has_attention), (new_id, false)]);
            }
        },
        PaneTree::Split { start, end } => {
            law_split_inserts_after(*start, id, new_id);
            law_split_inserts_after(*end, id, new_id);
            let l = leaves(*start);
            let r = leaves(*end);
            lemma_index_of_concat(l, r, id);
            lemma_index_of(l, id);
            lemma_index_of(r, id);
            let (s, found) = spec_split(*start, id, new_id);
            if found {
                let i = index_of(l, id);
                assert(leaves(s) + r =~= (l + r).insert(i + 1, (new_id, false)));
            } else {
                let (e, found_end) = spec_split(*end, id, new_id);
                if found_end {
                    let i = index_of(r, id);
                    assert(l + leaves(e) =~= (l + r).insert(l.len() + i + 1, (new_id, false)));
                }
            }
        },
    }
}

/// A found pane makes the split result a split.
proof fn lemma_split_found_is_split(t: PaneTree, id: u64, new_id: u64)
    ensures
        spec_split(t, id, new_id).1 ==> spec_split(t, id, new_id).0 is Split,
{
}

/// Removing a pane the tree does not hold finds nothing.
proof fn lemma_remove_absent(t: PaneTree, id: u64)
    requires
        index_of(leaves(t), id) == leaves(t).len(),
    ensures
        spec_remove(t, id) is None,
    decreases t,
{
    lemma_index_of(leaves(t), id);
    if let PaneTree::Split { start, end } = t {
        let l = leaves(*start);
        let r = leaves(*end);
        lemma_index_of_concat(l, r, id);
        lemma_index_of(l, id);
        lemma_index_of(r, id);
        if start.is_leaf_with(id) {
            assert((l + r)[0] == l[0]);
        }
        if end.is_leaf_with(id) {
            assert((l + r)[l.len() as int] == r[0]);
        }
        lemma_remove_absent(*start, id);
        lemma_remove_absent(*end, id);
    }
}

/// Closing the pane a split created restores the tree, and focus returns to the split pane.
pub proof fn law_close_undoes_split(t: PaneTree, active: u64, new_id: u64)
    requires
        index_of(leaves(t), active) < leaves(t).len(),
        index_of(leaves(t), new_id) == leaves(t).len(),
    ensures
        spec_remove(spec_split(t, active, new_id).0, new_id) == Some((t, active)),
    decreases t,
{
    lemma_index_of(leaves(t), active);
    lemma_index_of(leaves(t), new_id);
    law_split_inserts_after(t, active, new_id);
    match t {
        PaneTree::Leaf { pane_id, .. } => {
            assert(leaves(t)[0].0 == pane_id);
        },
        PaneTree::Split { start, end } => {
            let l = leaves(*start);
            let r = leaves(*end);
            lemma_index_of_concat(l, r, active);
            lemma_index_of_concat(l, r, new_id);
            lemma_index_of(l, active);
            lemma_index_of(r, active);
            lemma_index_of(l, new_id);
            lemma_index_of(r, new_id);
            if start.is_leaf_with(new_id) {
                assert((l + r)[0] == l[0]);
            }
            if end.is_leaf_with(new_id) {
                assert((l + r)[l.len() as int] == r[0]);
            }
            let (s2, found) = spec_split(*start, active, new_id);
            law_split_inserts_after(*start, active, new_id);
            if found {
                lemma_split_found_is_split(*start, active, new_id);
                law_close_undoes_split(*start, active, new_id);
            } else {
                law_split_inserts_after(*end, active, new_id);
                lemma_split_found_is_split(*end, active, new_id);
                law_close_undoes_split(*end, active, new_id);
                lemma_remove_absent(*start, new_id);
            }
        },
    }
}

/// Whether pane ids lie below a bound.
pub open spec fn ids_below(ls: Seq<(u64, bool)>, bound: u64) -> bool {
    forall|i: int| 0 <= i < ls.len() ==> (#[trigger] ls[i]).0 < bound
}

/// The survivor a removal reports is a pane of the remaining tree.
proof fn lemma_survivor_present(t: PaneTree, id: u64)
    requires
        spec_remove(t, id) is Some,
    ensures
        index_of(leaves(spec_remove(t, id).unwrap().0), spec_remove(t, id).unwrap().1) < leaves(
            spec_remove(t, id).unwrap().0,
        ).len(),
    decreases t,
{
    if let PaneTree::Split { start, end } = t {
        lemma_leaves_nonempty(*start);
        lemma_leaves_nonempty(*end);
        if start.is_leaf_with(id) {
            lemma_index_of(leaves(*end), leaves(*end)[0].0);
        } else if end.is_leaf_with(id) {
            lemma_index_of(leaves(*start), leaves(*start)[0].0);
        } else {
            let l = leaves(*start);
            let r = leaves(*end);
            match spec_remove(*start, id) {
                Some((s2, survivor)) => {
                    lemma_survivor_present(*start, id);
                    lemma_index_of_concat(leaves(s2), r, survivor);
                },
                None => {
                    lemma_survivor_present(*end, id);
                    let (e2, survivor) = spec_remove(*end, id).unwrap();
                    lemma_index_of_concat(l, leaves(e2), survivor);
                    lemma_index_of(l, survivor);
                },
            }
        }
    }
}

/// A pane with `id` is found by `index_of`.
proof fn lemma_index_of_found(ls: Seq<(u64, bool)>, id: u64, k: int)
    requires
        0 <= k < ls.len(),
        ls[k].0 == id,
    ensures
        index_of(ls, id) <= k,
{
    lemma_index_of(ls, id);
}

/// A workspace's panes, the focused pane, and the next pane id to hand out.
pub struct PaneLayout {
    root: PaneTree,
    active_pane_id: u64,
    next_pane_id: u64,
}

impl PaneLayout {
    /// The pane tree.
    pub closed spec fn tree(&self) -> PaneTree {
        self.root
    }

    /// The focused pane.
    pub closed spec fn active(&self) -> u64 {
        self.active_pane_id
    }

    /// The id the next new pane gets.
    pub closed spec fn next(&self) -> u64 {
        self.next_pane_id
    }

    /// Pane ids are distinct and below the next id, and the focused pane is in the tree.
    pub open spec fn wf(&self) -> bool {
        &&& distinct_ids(leaves(self.tree()))
        &&& ids_below(leaves(self.tree()), self.next())
        &&& index_of(leaves(self.tree()), self.active()) < leaves(self.tree()).len()
    }

    /// A single focused pane `pane_id`; new panes are numbered after it.
    pub fn new(pane_id: u64) -> (l: PaneLayout)
        requires
            pane_id < u64::MAX,
        ensures
            l.wf(),
            l.tree() == (PaneTree::Leaf { pane_id, has_attention: false }),
            l.active() == pane_id,
            l.next() == pane_id + 1,
    {
        let l = PaneLayout {
            root: PaneTree::Leaf { pane_id, has_attention: false },
            active_pane_id: pane_id,
            next_pane_id: pane_id + 1,
        };
        proof {
            assert(leaves(l.root) =~= seq![(pane_id, false)]);
        }
        l
    }

    /// The pane tree.
    pub fn root(&self) -> (r: &PaneTree)
        ensures
            *r == self.tree(),
    {
        &self.root
    }

    /// The focused pane.
    pub fn active_pane_id(&self) -> (r: u64)
        ensures
            r == self.active(),
    {
        self.active_pane_id
    }

    /// The id the next new pane gets.
    pub fn next_pane_id(&self) -> (r: u64)
        ensures
            r == self.next(),
    {
        self.next_pane_id
    }

    /// Whether the tree holds pane `id`.
    fn holds(&self, id: u64) -> (r: bool)
        ensures
            r == (index_of(leaves(self.tree()), id) < leaves(self.tree()).len()),
    {
        let mut order: Vec<u64> = Vec::new();
        self.root.collect_leaves_in_order(&mut order);
        let ghost ls = leaves(self.root);
        assert(order@ =~= ids(ls));
        proof {
            lemma_index_of(ls, id);
        }
        let mut pos: usize = 0;
        while pos < order.len() && order[pos] != id
            invariant
                order@ == ids(ls),
                pos <= order@.len(),
                forall|j: int| 0 <= j < pos ==> (#[trigger] ls[j]).0 != id,
            decreases order@.len() - pos,
        {
            assert(order@[pos as int] == ls[pos as int].0);
            pos = pos + 1;
        }
        if pos < order.len() {
            assert(ls[pos as int].0 == id);
            proof {
                lemma_index_of_found(ls, id, pos as int);
            }
        }
        pos < order.len()
    }

    /// Focus pane `pane_id` when the tree holds it.
    pub fn activate_pane(&mut self, pane_id: u64) -> (r: bool)
        requires
            old(self).wf(),
        ensures
            final(self).wf(),
            final(self).tree() == old(self).tree(),
            final(self).next() == old(self).next(),
            r == (index_of(leaves(old(self).tree()), pane_id) < leaves(old(self).tree()).len()),
            final(self).active() == if r {
                pane_id
            } else {
                old(self).active()
            },
    {
        if !self.holds(pane_id) {
            return false;
        }
        self.active_pane_id = pane_id;
        true
    }

    /// Split the focused pane, focus the new pane placed after it, and return its id; `None`
    /// when the focused pane is missing. Ids are handed out in increasing order.
    pub fn split_active(&mut self) -> (r: Option<u64>)
        requires
            old(self).wf(),
            old(self).next() < u64::MAX,
        ensures
            final(self).wf(),
            r == Some(old(self).next()),
            final(self).next() == old(self).next() + 1,
            final(self).active() == old(self).next(),
            final(self).tree() == spec_split(old(self).tree(), old(self).active(), old(self).next()).0,
    {
        let active = self.active_pane_id;
        let new_id = self.next_pane_id;
        let ghost before = leaves(self.root);
        proof {
            lemma_index_of(before, active);
            law_split_inserts_after(self.root, active, new_id);
        }
        let found = self.root.split_leaf(active, new_id);
        self.next_pane_id = new_id + 1;
        self.active_pane_id = new_id;
        proof {
            let after = leaves(self.root);
            let i = index_of(before, active);
            assert(after == before.insert(i + 1, (new_id, false)));
            assert forall|a: int, b: int| 0 <= a < b < after.len() implies after[a].0 != after[b].0 by {
                if a < i + 1 && b < i + 1 {
                } else if a < i + 1 && b == i + 1 {
                    assert(before[a].0 < new_id);
                } else if a < i + 1 {
                    assert(after[b] == before[b - 1]);
                } else if a == i + 1 {
                    assert(after[b] == before[b - 1]);
                    assert(before[b - 1].0 < new_id);
                } else {
                    assert(after[a] == before[a - 1] && after[b] == before[b - 1]);
                }
            }
            assert forall|k: int| 0 <= k < after.len() implies (#[trigger] after[k]).0 < new_id + 1 by {
                if k < i + 1 {
                } else if k > i + 1 {
                    assert(after[k] == before[k - 1]);
                }
            }
            lemma_index_of_found(after, new_id, i + 1);
        }
        Some(new_id)
    }

    /// Close the focused pane, focusing the first pane of its sibling, and return that pane;
    /// `None`, with nothing changed, when the focused pane is the only one.
    pub fn close_active(&mut self) -> (r: Option<u64>)
        requires
            old(self).wf(),
        ensures
            final(self).wf(),
            final(self).next() == old(self).next(),
            match spec_remove(old(self).tree(), old(self).active()) {
                Some((t, survivor)) => r == Some(survivor) && final(self).tree() == t
                    && final(self).active() == survivor,
                None => r is None && final(self).tree() == old(self).tree() && final(self).active()
                    == old(self).active(),
            },
            r is None <==> old(self).tree() is Leaf,
    {
        let active = self.active_pane_id;
        let ghost before = self.root;
        proof {
            lemma_index_of(leaves(before), active);
            if before is Split {
                lemma_remove_present(before, active);
            } else {
                assert(leaves(before)[0].0 == active);
            }
        }
        if self.root.leaf_is(active) {
            return None;
        }
        let r = self.root.remove_leaf_from_tree(active);
        if let Some(survivor) = r {
            self.active_pane_id = survivor;
            proof {
                law_remove_keeps_order(before, active);
                lemma_survivor_present(before, active);
                let ls = leaves(before);
                let i = index_of(ls, active);
                let after = leaves(self.root);
                assert(after == ls.remove(i));
                assert forall|a: int, b: int| 0 <= a < b < after.len() implies after[a].0 != after[b].0 by {
                    if b < i {
                    } else if a < i {
                        assert(after[b] == ls[b + 1]);
                    } else {
                        assert(after[a] == ls[a + 1] && after[b] == ls[b + 1]);
                    }
                }
                assert forall|k: int| 0 <= k < after.len() implies (#[trigger] after[k]).0 < self.next_pane_id by {
                    if k >= i {
                        assert(after[k] == ls[k + 1]);
                    }
                }
            }
        }
        r
    }

    /// Focus the pane adjacent to the focused one in `direction`; false at the edge.
    pub fn focus_next_in_direction(&mut self, direction: FocusDirection) -> (r: bool)
        requires
            old(self).wf(),
        ensures
            final(self).wf(),
            final(self).tree() == old(self).tree(),
            final(self).next() == old(self).next(),
            r == spec_adjacent(leaves(old(self).tree()), old(self).active(), direction) is Some,
            final(self).active() == match spec_adjacent(
                leaves(old(self).tree()),
                old(self).active(),
                direction,
            ) {
                Some(id) => id,
                None => old(self).active(),
            },
    {
        match find_adjacent(&self.root, self.active_pane_id, direction) {
            Some(id) => {
                proof {
                    let ls = leaves(self.root);
                    let pos = index_of(ls, self.active_pane_id);
                    lemma_index_of(ls, self.active_pane_id);
                    assert(spec_adjacent(ls, self.active_pane_id, direction) == Some(id));
                    if direction == FocusDirection::Left || direction == FocusDirection::Up {
                        lemma_index_of_found(ls, id, pos - 1);
                    } else {
                        lemma_index_of_found(ls, id, pos + 1);
                    }
                }
                self.active_pane_id = id;
                true
            },
            None => false,
        }
    }
}

/// A pane held by a split tree, below its root, can be removed.
proof fn lemma_remove_present(t: PaneTree, id: u64)
    requires
        t is Split,
        index_of(leaves(t), id) < leaves(t).len(),
    ensures
        spec_remove(t, id) is Some,
    decreases t,
{
    lemma_index_of(leaves(t), id);
    if let PaneTree::Split { start, end } = t {
        let l = leaves(*start);
        let r = leaves(*end);
        lemma_index_of_concat(l, r, id);
        lemma_index_of(l, id);
        lemma_index_of(r, id);
        if !start.is_leaf_with(id) && !end.is_leaf_with(id) {
            if index_of(l, id) < l.len() {
                if let PaneTree::Leaf { pane_id, .. } = *start {
                    assert(l[0].0 == pane_id);
                } else {
                    lemma_remove_present(*start, id);
                }
            } else {
                if let PaneTree::Leaf { pane_id, .. } = *end {
                    assert(r[0].0 == pane_id);
                } else {
                    lemma_remove_present(*end, id);
                }
                lemma_remove_absent(*start, id);
            }
        }
    }
}

/// What closing a surface tab did.
#[derive(Debug, PartialEq, Eq, Structural, Clone, Copy)]
pub enum CloseSurfaceResult {
    /// The tab was closed and its pane focused.
    Closed,
    /// The tab is its pane's only one; its pane is focused and closing it is left to the pane
    /// close flow.
    LastSurfaceInPane,
    /// No pane of the layout holds the surface.
    NotFound,
}

/// One pane's surface tabs, in tab order, and the tab it shows when it shows one.
#[derive(Debug, PartialEq, Eq, Clone)]
pub struct PaneTabs {
    pub pane_id: u64,
    pub surfaces: Vec<u128>,
    pub selected: Option<usize>,
}

/// A pane's tabs as values: its id, its surfaces in tab order and the shown tab.
pub open spec fn tab_model(t: PaneTabs) -> (u64, Seq<u128>, Option<usize>) {
    (t.pane_id, t.surfaces@, t.selected)
}

/// The tab lists as values.
pub open spec fn tabs_model(tabs: Seq<PaneTabs>) -> Seq<(u64, Seq<u128>, Option<usize>)> {
    tabs.map_values(|t: PaneTabs| tab_model(t))
}

/// Whether a tab list is pane `id`'s.
pub open spec fn of_pane(id: u64) -> spec_fn(PaneTabs) -> bool {
    |t: PaneTabs| t.pane_id == id
}

/// Index of pane `id`'s tab list (its first one), or the count.
pub open spec fn entry_of(tabs: Seq<PaneTabs>, id: u64) -> int {
    first_where(tabs, of_pane(id))
}

/// The surfaces pane `id` holds in its tabs; none when it has no tab list.
pub open spec fn surfaces_of(tabs: Seq<PaneTabs>, id: u64) -> Seq<u128> {
    let k = entry_of(tabs, id);
    if k < tabs.len() {
        tabs[k].surfaces@
    } else {
        Seq::empty()
    }
}

/// Whether a pane's tabs hold surface `uuid`.
pub open spec fn shows(tabs: Seq<PaneTabs>, uuid: u128) -> spec_fn((u64, bool)) -> bool {
    |l: (u64, bool)| surfaces_of(tabs, l.0).contains(uuid)
}

/// The first pane of the tree, in traversal order, whose tabs hold surface `uuid`.
pub open spec fn surface_pane(tree: PaneTree, tabs: Seq<PaneTabs>, uuid: u128) -> Option<u64> {
    let ls = leaves(tree);
    let o = first_where(ls, shows(tabs, uuid));
    if o < ls.len() {
        Some(ls[o].0)
    } else {
        None
    }
}

/// Whether a surface is `uuid`.
pub open spec fn is_surface(uuid: u128) -> spec_fn(u128) -> bool {
    |s: u128| s == uuid
}

/// Index of a surface in a tab list, or the count.
pub open spec fn surface_index(surfaces: Seq<u128>, uuid: u128) -> int {
    first_where(surfaces, is_surface(uuid))
}

/// A pane's tabs after its tab `uuid` closes: the tab leaves and the shown tab stays, or the
/// tab that slid into its place is shown, as the shared selection policy says.
pub open spec fn without_tab(t: (u64, Seq<u128>, Option<usize>), uuid: u128) -> (
    u64,
    Seq<u128>,
    Option<usize>,
) {
    let i = surface_index(t.1, uuid);
    (
        t.0,
        t.1.remove(i),
        match t.2 {
            Some(s) => match spec_after_removal(s as int, i, t.1.len() - 1) {
                Some(n) => Some(n as usize),
                None => None,
            },
            None => None,
        },
    )
}

/// The outcome of closing surface tab `uuid`, and the pane then focused: the tab of the first
/// pane holding it; that pane's only tab is left to the pane close flow, another tab is removed.
pub open spec fn spec_close_tab(tree: PaneTree, tabs: Seq<PaneTabs>, uuid: u128) -> (
    CloseSurfaceResult,
    Option<u64>,
) {
    match surface_pane(tree, tabs, uuid) {
        None => (CloseSurfaceResult::NotFound, None),
        Some(p) => if surfaces_of(tabs, p).len() == 1 {
            (CloseSurfaceResult::LastSurfaceInPane, Some(p))
        } else {
            (CloseSurfaceResult::Closed, Some(p))
        },
    }
}

/// Index of pane `id`'s tab list.
fn entry_index(tabs: &Vec<PaneTabs>, id: u64) -> (k: usize)
    ensures
        k == entry_of(tabs@, id),
{
    let mut k: usize = 0;
    while k < tabs.len() && tabs[k].pane_id != id
        invariant
            k <= tabs@.len(),
            forall|j: int| 0 <= j < k ==> !of_pane(id)(#[trigger] tabs@[j]),
        decreases tabs@.len() - k,
    {
        k = k + 1;
    }
    proof {
        if k < tabs@.len() {
            assert(of_pane(id)(tabs@[k as int]));
        }
        lemma_first_where_at(tabs@, of_pane(id), k as int);
    }
    k
}

/// Whether `v` holds `x`.
fn contains_u128(v: &Vec<u128>, x: u128) -> (r: bool)
    ensures
        r == v@.contains(x),
{
    let mut k: usize = 0;
    while k < v.len()
        invariant
            k <= v@.len(),
            forall|j: int| 0 <= j < k ==> v@[j] != x,
        decreases v@.len() - k,
    {
        if v[k] == x {
            assert(v@[k as int] == x);
            return true;
        }
        k = k + 1;
    }
    false
}

/// Position of surface `uuid` in a tab list.
fn position_u128(v: &Vec<u128>, x: u128) -> (i: usize)
    ensures
        i == surface_index(v@, x),
{
    let mut i: usize = 0;
    while i < v.len() && v[i] != x
        invariant
            i <= v@.len(),
            forall|j: int| 0 <= j < i ==> !is_surface(x)(#[trigger] v@[j]),
        decreases v@.len() - i,
    {
        i = i + 1;
    }
    proof {
        if i < v@.len() {
            assert(is_surface(x)(v@[i as int]));
        }
        lemma_first_where_at(v@, is_surface(x), i as int);
    }
    i
}

/// Whether pane `id`'s tabs hold surface `uuid`.
fn pane_shows(tabs: &Vec<PaneTabs>, id: u64, uuid: u128) -> (r: bool)
    ensures
        r == surfaces_of(tabs@, id).contains(uuid),
{
    let k = entry_index(tabs, id);
    if k < tabs.len() {
        contains_u128(&tabs[k].surfaces, uuid)
    } else {
        false
    }
}

impl PaneLayout {
    /// The pane whose tabs hold surface `uuid`: the first such pane in traversal order.
    pub fn find_pane_id_by_uuid(&self, tabs: &Vec<PaneTabs>, uuid: u128) -> (r: Option<u64>)
        requires
            self.wf(),
        ensures
            r == surface_pane(self.tree(), tabs@, uuid),
            r matches Some(p) ==> index_of(leaves(self.tree()), p) < leaves(self.tree()).len(),
    {
        let mut order: Vec<u64> = Vec::new();
        self.root.collect_leaves_in_order(&mut order);
        let ghost ls = leaves(self.root);
        assert(order@ =~= ids(ls));
        let mut i: usize = 0;
        while i < order.len()
            invariant
                ls == leaves(self.tree()),
                order@ == ids(ls),
                i <= order@.len(),
                forall|j: int| 0 <= j < i ==> !shows(tabs@, uuid)(#[trigger] ls[j]),
            decreases order@.len() - i,
        {
            let id = order[i];
            assert(id == ls[i as int].0);
            if pane_shows(tabs, id, uuid) {
                proof {
                    assert(shows(tabs@, uuid)(ls[i as int]));
                    lemma_first_where_at(ls, shows(tabs@, uuid), i as int);
                    lemma_index_of_found(ls, id, i as int);
                }
                return Some(id);
            }
            i = i + 1;
        }
        proof {
            lemma_first_where_at(ls, shows(tabs@, uuid), ls.len() as int);
        }
        None
    }
}

/// The pane a lookup finds holds a tab list with the surface.
proof fn lemma_found_entry(tabs: Seq<PaneTabs>, p: u64, uuid: u128)
    requires
        surfaces_of(tabs, p).contains(uuid),
    ensures
        entry_of(tabs, p) < tabs.len(),
        tabs[entry_of(tabs, p)].pane_id == p,
        tabs[entry_of(tabs, p)].surfaces@.contains(uuid),
        surface_index(tabs[entry_of(tabs, p)].surfaces@, uuid) < tabs[entry_of(tabs, p)].surfaces@.len(),
{
    lemma_first_where(tabs, of_pane(p));
    let k = entry_of(tabs, p);
    let s = tabs[k].surfaces@;
    lemma_first_where(s, is_surface(uuid));
    let j = choose|j: int| 0 <= j < s.len() && s[j] == uuid;
    assert(is_surface(uuid)(s[j]));
}

impl PaneLayout {
    /// Close surface tab `uuid`: the first pane holding it in its tabs must be in the layout;
    /// its only tab is not closed here but the pane is focused and `LastSurfaceInPane`
    /// reported; another tab is removed, the shown tab follows the shared selection policy,
    /// and the pane is focused.
    pub fn close_surface_tab(&mut self, tabs: &mut Vec<PaneTabs>, uuid: u128) -> (r:
        CloseSurfaceResult)
        requires
            old(self).wf(),
        ensures
            final(self).wf(),
            final(self).tree() == old(self).tree(),
            final(self).next() == old(self).next(),
            r == spec_close_tab(old(self).tree(), old(tabs)@, uuid).0,
            match spec_close_tab(old(self).tree(), old(tabs)@, uuid).1 {
                Some(pane) => final(self).active() == pane,
                None => final(self).active() == old(self).active(),
            },
            r != CloseSurfaceResult::Closed ==> final(tabs)@ == old(tabs)@,
            r == CloseSurfaceResult::Closed ==> ({
                let k = entry_of(old(tabs)@, spec_close_tab(old(self).tree(), old(tabs)@, uuid).1->Some_0);
                tabs_model(final(tabs)@) == tabs_model(old(tabs)@).update(
                    k,
                    without_tab(tab_model(old(tabs)@[k]), uuid),
                )
            }),
    {
        let pane = match self.find_pane_id_by_uuid(tabs, uuid) {
            Some(p) => p,
            None => return CloseSurfaceResult::NotFound,
        };
        proof {
            let ls = leaves(self.root);
            lemma_first_where(ls, shows(tabs@, uuid));
            lemma_found_entry(tabs@, pane, uuid);
        }
        let k = entry_index(tabs, pane);
        let ok = self.activate_pane(pane);
        assert(ok);
        if tabs[k].surfaces.len() == 1 {
            return CloseSurfaceResult::LastSurfaceInPane;
        }
        let ghost before = tabs@;
        let mut entry = tabs.remove(k);
        assert(entry == before[k as int]);
        let i = position_u128(&entry.surfaces, uuid);
        let ghost old_surfaces = entry.surfaces@;
        entry.surfaces.remove(i);
        entry.selected = match entry.selected {
            Some(s) => after_removal(s, i, entry.surfaces.len()),
            None => None,
        };
        proof {
            assert(entry.surfaces@ == old_surfaces.remove(i as int));
            assert(tab_model(entry) == without_tab(tab_model(before[k as int]), uuid));
        }
        tabs.insert(k, entry);
        proof {
            assert(tabs_model(tabs@) =~= tabs_model(before).update(
                k as int,
                without_tab(tab_model(before[k as int]), uuid),
            ));
        }
        CloseSurfaceResult::Closed
    }

    /// Close surface tab `uuid`, closing its pane too when it was the pane's only tab and
    /// another pane remains; the closed pane's tab list is dropped then. Closing the last tab
    /// of the last pane is left to the caller's workspace policy.
    pub fn close_surface_and_empty_pane(&mut self, tabs: &mut Vec<PaneTabs>, uuid: u128) -> (r:
        CloseSurfaceResult)
        requires
            old(self).wf(),
        ensures
            final(self).wf(),
            final(self).next() == old(self).next(),
            ({
                let (first, pane) = spec_close_tab(old(self).tree(), old(tabs)@, uuid);
                if first == CloseSurfaceResult::LastSurfaceInPane && old(self).tree() is Split {
                    &&& r == CloseSurfaceResult::Closed
                    &&& final(tabs)@ == old(tabs)@.remove(entry_of(old(tabs)@, pane->Some_0))
                    &&& spec_remove(old(self).tree(), pane->Some_0) matches Some((t, survivor))
                    &&& final(self).tree() == t
                    &&& final(self).active() == survivor
                } else {
                    &&& r == first
                    &&& final(self).tree() == old(self).tree()
                    &&& r != CloseSurfaceResult::Closed ==> final(tabs)@ == old(tabs)@
                    &&& final(self).active() == match pane {
                        Some(p) => p,
                        None => old(self).active(),
                    }
                    &&& r == CloseSurfaceResult::Closed ==> ({
                        let k = entry_of(old(tabs)@, pane->Some_0);
                        tabs_model(final(tabs)@) == tabs_model(old(tabs)@).update(
                            k,
                            without_tab(tab_model(old(tabs)@[k]), uuid),
                        )
                    })
                }
            }),
    {
        let ghost old_tabs = tabs@;
        let r = self.close_surface_tab(tabs, uuid);
        if r == CloseSurfaceResult::LastSurfaceInPane {
            let pane = self.active_pane_id;
            if self.close_active().is_some() {
                proof {
                    lemma_first_where(leaves(old(self).tree()), shows(old_tabs, uuid));
                    lemma_found_entry(old_tabs, pane, uuid);
                }
                let k = entry_index(tabs, pane);
                tabs.remove(k);
                return CloseSurfaceResult::Closed;
            }
        }
        r
    }
}

/// The tab pane `id` shows, counting from the first when none is marked; 0 without tabs.
pub open spec fn shown_index(tabs: Seq<PaneTabs>, id: u64) -> int {
    let k = entry_of(tabs, id);
    if k < tabs.len() {
        match tabs[k].selected {
            Some(i) => i as int,
            None => 0,
        }
    } else {
        0
    }
}

/// The surface pane `id` of the tree shows: its shown tab's, when the tree holds the pane and
/// the tab exists.
pub open spec fn shown_surface(tree: PaneTree, tabs: Seq<PaneTabs>, id: u64) -> Option<u128> {
    let s = surfaces_of(tabs, id);
    let i = shown_index(tabs, id);
    if index_of(leaves(tree), id) < leaves(tree).len() && 0 <= i < s.len() {
        Some(s[i])
    } else {
        None
    }
}

/// One row per tab of pane `id`: the surface, the pane, and whether it is the shown tab of the
/// focused pane.
pub open spec fn pane_rows(tabs: Seq<PaneTabs>, id: u64, active: u64) -> Seq<(u128, u64, bool)> {
    let s = surfaces_of(tabs, id);
    Seq::new(s.len(), |i: int| (s[i], id, id == active && i == shown_index(tabs, id)))
}

/// The rows of every pane, panes in traversal order and tabs in tab order.
pub open spec fn all_rows(ls: Seq<(u64, bool)>, tabs: Seq<PaneTabs>, active: u64) -> Seq<
    (u128, u64, bool),
>
    decreases ls.len(),
{
    if ls.len() == 0 {
        Seq::empty()
    } else {
        all_rows(ls.drop_last(), tabs, active) + pane_rows(tabs, ls.last().0, active)
    }
}

/// A pane's listing entry: its id, its surfaces in tab order, and the shown one.
pub struct PaneInfo {
    pub id: u64,
    pub surface_ids: Vec<u128>,
    pub selected_surface: Option<u128>,
}

/// A listing entry as values.
pub open spec fn info_model(p: PaneInfo) -> (u64, Seq<u128>, Option<u128>) {
    (p.id, p.surface_ids@, p.selected_surface)
}

/// Pane `id`'s listing entry: the shown surface only when a tab is marked shown and exists.
pub open spec fn pane_entry(tabs: Seq<PaneTabs>, id: u64) -> (u64, Seq<u128>, Option<u128>) {
    let k = entry_of(tabs, id);
    let s = surfaces_of(tabs, id);
    (
        id,
        s,
        if k < tabs.len() {
            match tabs[k].selected {
                Some(i) => if i < s.len() {
                    Some(s[i as int])
                } else {
                    None
                },
                None => None,
            }
        } else {
            None
        },
    )
}

impl PaneLayout {
    /// Focus the pane holding surface `uuid` and show that tab; false, with nothing changed,
    /// when no pane of the layout holds it.
    pub fn focus_surface(&mut self, tabs: &mut Vec<PaneTabs>, uuid: u128) -> (r: bool)
        requires
            old(self).wf(),
        ensures
            final(self).wf(),
            final(self).tree() == old(self).tree(),
            final(self).next() == old(self).next(),
            r == surface_pane(old(self).tree(), old(tabs)@, uuid) is Some,
            match surface_pane(old(self).tree(), old(tabs)@, uuid) {
                Some(p) => {
                    let k = entry_of(old(tabs)@, p);
                    &&& final(self).active() == p
                    &&& tabs_model(final(tabs)@) == tabs_model(old(tabs)@).update(
                        k,
                        (
                            p,
                            old(tabs)@[k].surfaces@,
                            Some(surface_index(old(tabs)@[k].surfaces@, uuid) as usize),
                        ),
                    )
                },
                None => final(self).active() == old(self).active() && final(tabs)@ == old(tabs)@,
            },
    {
        let pane = match self.find_pane_id_by_uuid(tabs, uuid) {
            Some(p) => p,
            None => return false,
        };
        proof {
            lemma_first_where(leaves(self.root), shows(tabs@, uuid));
            lemma_found_entry(tabs@, pane, uuid);
        }
        let k = entry_index(tabs, pane);
        let i = position_u128(&tabs[k].surfaces, uuid);
        let ghost before = tabs@;
        let mut entry = tabs.remove(k);
        assert(entry == before[k as int]);
        entry.selected = Some(i);
        tabs.insert(k, entry);
        proof {
            assert(tabs_model(tabs@) =~= tabs_model(before).update(
                k as int,
                (pane, before[k as int].surfaces@, Some(i)),
            ));
        }
        let ok = self.activate_pane(pane);
        assert(ok);
        true
    }

    /// The surface pane `pane_id` shows: the tab marked shown, or its first tab when none is.
    pub fn find_uuid_for_pane(&self, tabs: &Vec<PaneTabs>, pane_id: u64) -> (r: Option<u128>)
        requires
            self.wf(),
        ensures
            r == shown_surface(self.tree(), tabs@, pane_id),
    {
        if !self.holds(pane_id) {
            return None;
        }
        let k = entry_index(tabs, pane_id);
        if k >= tabs.len() {
            return None;
        }
        let i = match tabs[k].selected {
            Some(i) => i,
            None => 0,
        };
        if i < tabs[k].surfaces.len() {
            Some(tabs[k].surfaces[i])
        } else {
            None
        }
    }

    /// The surface the focused pane shows.
    pub fn active_pane_uuid(&self, tabs: &Vec<PaneTabs>) -> (r: Option<u128>)
        requires
            self.wf(),
        ensures
            r == shown_surface(self.tree(), tabs@, self.active()),
    {
        self.find_uuid_for_pane(tabs, self.active_pane_id)
    }

    /// Every tab of every pane, panes in traversal order: its surface, its pane, and whether
    /// it is the shown tab of the focused pane.
    pub fn all_panes(&self, tabs: &Vec<PaneTabs>) -> (r: Vec<(u128, u64, bool)>)
        requires
            self.wf(),
        ensures
            r@ == all_rows(leaves(self.tree()), tabs@, self.active()),
    {
        let mut order: Vec<u64> = Vec::new();
        self.root.collect_leaves_in_order(&mut order);
        let ghost ls = leaves(self.root);
        assert(order@ =~= ids(ls));
        let active = self.active_pane_id;
        let mut out: Vec<(u128, u64, bool)> = Vec::new();
        let mut i: usize = 0;
        assert(ls.take(0) =~= Seq::<(u64, bool)>::empty());
        while i < order.len()
            invariant
                order@ == ids(ls),
                i <= order@.len(),
                active == self.active(),
                out@ == all_rows(ls.take(i as int), tabs@, active),
            decreases order@.len() - i,
        {
            let id = order[i];
            assert(id == ls[i as int].0);
            let k = entry_index(tabs, id);
            let ghost rows = pane_rows(tabs@, id, active);
            let ghost prefix = out@;
            if k < tabs.len() {
                let shown: usize = match tabs[k].selected {
                    Some(s) => s,
                    None => 0,
                };
                let n = tabs[k].surfaces.len();
                let mut j: usize = 0;
                while j < n
                    invariant
                        k < tabs@.len(),
                        k == entry_of(tabs@, id),
                        n == tabs@[k as int].surfaces@.len(),
                        shown == shown_index(tabs@, id),
                        rows == pane_rows(tabs@, id, active),
                        j <= n,
                        out@ == prefix + rows.take(j as int),
                    decreases n - j,
                {
                    let u = tabs[k].surfaces[j];
                    out.push((u, id, id == active && j == shown));
                    proof {
                        assert(rows.take(j as int + 1) =~= rows.take(j as int).push(rows[j as int]));
                    }
                    j = j + 1;
                }
                assert(rows.take(n as int) =~= rows);
            } else {
                assert(rows =~= Seq::<(u128, u64, bool)>::empty());
                assert(out@ =~= prefix + rows);
            }
            proof {
                assert(ls.take(i as int + 1).drop_last() =~= ls.take(i as int));
                assert(ls.take(i as int + 1).last() == ls[i as int]);
            }
            i = i + 1;
        }
        assert(ls.take(ls.len() as int) =~= ls);
        out
    }

    /// Each pane's listing entry, panes in traversal order.
    pub fn pane_info(&self, tabs: &Vec<PaneTabs>) -> (r: Vec<PaneInfo>)
        requires
            self.wf(),
        ensures
            r@.map_values(|p: PaneInfo| info_model(p)) == ids(leaves(self.tree())).map_values(
                |id: u64| pane_entry(tabs@, id),
            ),
    {
        let mut order: Vec<u64> = Vec::new();
        self.root.collect_leaves_in_order(&mut order);
        let ghost ls = leaves(self.root);
        assert(order@ =~= ids(ls));
        let mut out: Vec<PaneInfo> = Vec::new();
        let mut i: usize = 0;
        while i < order.len()
            invariant
                order@ == ids(ls),
                i <= order@.len(),
                out@.len() == i,
                forall|j: int| 0 <= j < i ==> info_model(#[trigger] out@[j]) == pane_entry(tabs@, order@[j]),
            decreases order@.len() - i,
        {
            let id = order[i];
            let k = entry_index(tabs, id);
            let info = if k < tabs.len() {
                let surface_ids = tabs[k].surfaces.clone();
                let selected_surface = match tabs[k].selected {
                    Some(s) => if s < surface_ids.len() {
                        Some(surface_ids[s])
                    } else {
                        None
                    },
                    None => None,
                };
                PaneInfo { id, surface_ids, selected_surface }
            } else {
                PaneInfo { id, surface_ids: Vec::new(), selected_surface: None }
            };
            assert(info_model(info) == pane_entry(tabs@, id));
            out.push(info);
            i = i + 1;
        }
        proof {
            assert(out@.map_values(|p: PaneInfo| info_model(p)) =~= ids(ls).map_values(
                |id: u64| pane_entry(tabs@, id),
            ));
        }
        out
    }
}

/// Whether a pane's tabs hold a surface whose text is `text`.
pub open spec fn shows_text(tabs: Seq<PaneTabs>, text: Seq<char>) -> spec_fn((u64, bool)) -> bool {
    |l: (u64, bool)|
        exists|i: int|
            0 <= i < surfaces_of(tabs, l.0).len() && #[trigger] hyphenated(surfaces_of(tabs, l.0)[i])
                == text
}

/// The pane a reference names: `pane:` and its number, or else the text of a surface, which
/// names the first pane in traversal order holding that surface.
pub open spec fn pane_ref_target(tree: PaneTree, tabs: Seq<PaneTabs>, reference: Seq<char>) -> Option<
    u64,
> {
    if reference.len() >= 5 && reference.take(5) == seq!['p', 'a', 'n', 'e', ':'] {
        parse_u64(reference.skip(5))
    } else {
        let ls = leaves(tree);
        let o = first_where(ls, shows_text(tabs, reference));
        if o < ls.len() {
            Some(ls[o].0)
        } else {
            None
        }
    }
}

/// Whether pane `id`'s tabs hold a surface whose text is `text`.
fn pane_shows_text(tabs: &Vec<PaneTabs>, id: u64, text: &Vec<char>) -> (r: bool)
    ensures
        r == (exists|i: int|
            0 <= i < surfaces_of(tabs@, id).len() && #[trigger] hyphenated(surfaces_of(tabs@, id)[i])
                == text@),
{
    let k = entry_index(tabs, id);
    if k >= tabs.len() {
        return false;
    }
    let mut i: usize = 0;
    while i < tabs[k].surfaces.len()
        invariant
            k == entry_of(tabs@, id),
            k < tabs@.len(),
            i <= tabs@[k as int].surfaces@.len(),
            forall|j: int| 0 <= j < i ==> hyphenated(#[trigger] tabs@[k as int].surfaces@[j]) != text@,
        decreases tabs@[k as int].surfaces@.len() - i,
    {
        let shown = uuid_text(tabs[k].surfaces[i]);
        if same_chars(&shown, text) {
            assert(hyphenated(surfaces_of(tabs@, id)[i as int]) == text@);
            return true;
        }
        i = i + 1;
    }
    proof {
        let s = surfaces_of(tabs@, id);
        assert forall|j: int| 0 <= j < s.len() implies #[trigger] hyphenated(s[j]) != text@ by {
            assert(s[j] == tabs@[k as int].surfaces@[j]);
        }
    }
    false
}

/// Whether two character lists are equal.
fn same_chars(a: &Vec<char>, b: &Vec<char>) -> (r: bool)
    ensures
        r == (a@ == b@),
{
    if a.len() != b.len() {
        return false;
    }
    let mut i: usize = 0;
    while i < a.len()
        invariant
            a@.len() == b@.len(),
            i <= a@.len(),
            forall|j: int| 0 <= j < i ==> a@[j] == b@[j],
        decreases a@.len() - i,
    {
        if a[i] != b[i] {
            return false;
        }
        i = i + 1;
    }
    assert(a@ =~= b@);
    true
}

impl PaneLayout {
    /// The first pane, in traversal order, holding a surface whose text is `text`.
    pub fn first_pane_with_text(&self, tabs: &Vec<PaneTabs>, text: &Vec<char>) -> (r: Option<u64>)
        ensures
            r == text_pane(self.tree(), tabs@, text@),
    {
        let mut order: Vec<u64> = Vec::new();
        self.root.collect_leaves_in_order(&mut order);
        let ghost ls = leaves(self.root);
        assert(order@ =~= ids(ls));
        let mut i: usize = 0;
        while i < order.len()
            invariant
                ls == leaves(self.tree()),
                order@ == ids(ls),
                i <= order@.len(),
                forall|j: int| 0 <= j < i ==> !shows_text(tabs@, text@)(#[trigger] ls[j]),
            decreases order@.len() - i,
        {
            let id = order[i];
            assert(id == ls[i as int].0);
            let hit = pane_shows_text(tabs, id, text);
            assert(hit == shows_text(tabs@, text@)(ls[i as int]));
            if hit {
                proof {
                    lemma_first_where_at(ls, shows_text(tabs@, text@), i as int);
                }
                return Some(id);
            }
            i = i + 1;
        }
        proof {
            lemma_first_where_at(ls, shows_text(tabs@, text@), ls.len() as int);
        }
        None
    }

    /// Focus the pane a reference names, `pane:` and its number or the text of one of its
    /// surfaces, without changing the tab it shows; false, with nothing changed, when the
    /// reference names no pane of the layout.
    pub fn focus_pane_ref(&mut self, tabs: &Vec<PaneTabs>, reference: &str) -> (r: bool)
        requires
            old(self).wf(),
        ensures
            final(self).wf(),
            final(self).tree() == old(self).tree(),
            final(self).next() == old(self).next(),
            r == match pane_ref_target(old(self).tree(), tabs@, reference@) {
                Some(p) => index_of(leaves(old(self).tree()), p) < leaves(old(self).tree()).len(),
                None => false,
            },
            final(self).active() == if r {
                pane_ref_target(old(self).tree(), tabs@, reference@)->Some_0
            } else {
                old(self).active()
            },
    {
        let text = chars_of(reference);
        let target = if text.len() >= 5 && text[0] == 'p' && text[1] == 'a' && text[2] == 'n'
            && text[3] == 'e' && text[4] == ':' {
            proof {
                assert(text@.take(5) =~= seq!['p', 'a', 'n', 'e', ':']);
            }
            let number = slice_chars(&text, 5, text.len());
            assert(number@ =~= text@.skip(5));
            read_u64(number.as_slice())
        } else {
            proof {
                if text@.len() >= 5 && text@.take(5) == seq!['p', 'a', 'n', 'e', ':'] {
                    assert(text@.take(5)[0] == 'p');
                    assert(text@.take(5)[1] == 'a');
                    assert(text@.take(5)[2] == 'n');
                    assert(text@.take(5)[3] == 'e');
                    assert(text@.take(5)[4] == ':');
                }
            }
            self.first_pane_with_text(tabs, &text)
        };
        assert(target == pane_ref_target(self.tree(), tabs@, reference@));
        match target {
            Some(p) => self.activate_pane(p),
            None => false,
        }
    }
}

/// After a surface is focused, its pane shows it: tab lists that differ from `tabs` only in
/// the shown tab of the pane holding `uuid`, now its tab, report `uuid` as that pane's surface
/// (tab lists being as long as a `Vec` can be).
pub proof fn law_focused_surface_is_shown(tree: PaneTree, tabs: Seq<PaneTabs>, after: Seq<PaneTabs>, uuid: u128)
    requires
        forall|j: int| 0 <= j < tabs.len() ==> (#[trigger] tabs[j]).surfaces@.len() <= usize::MAX,
        surface_pane(tree, tabs, uuid) is Some,
        ({
            let p = surface_pane(tree, tabs, uuid)->Some_0;
            let k = entry_of(tabs, p);
            tabs_model(after) == tabs_model(tabs).update(
                k,
                (p, tabs[k].surfaces@, Some(surface_index(tabs[k].surfaces@, uuid) as usize)),
            )
        }),
    ensures
        shown_surface(tree, after, surface_pane(tree, tabs, uuid)->Some_0) == Some(uuid),
{
    let ls = leaves(tree);
    let p = surface_pane(tree, tabs, uuid)->Some_0;
    lemma_first_where(ls, shows(tabs, uuid));
    let o = first_where(ls, shows(tabs, uuid));
    lemma_index_of_found(ls, p, o);
    lemma_found_entry(tabs, p, uuid);
    let k = entry_of(tabs, p);
    lemma_first_where(tabs, of_pane(p));
    assert(after.len() == tabs.len()) by {
        assert(tabs_model(after).len() == after.len());
    }
    assert forall|j: int| 0 <= j < after.len() implies (#[trigger] after[j]).pane_id == tabs[j].pane_id by {
        assert(tabs_model(after)[j] == tab_model(after[j]));
        assert(tabs_model(tabs)[j] == tab_model(tabs[j]));
    }
    assert(tabs_model(after)[k] == tab_model(after[k]));
    assert forall|j: int| 0 <= j < k implies !of_pane(p)(#[trigger] after[j]) by {
        assert(!of_pane(p)(tabs[j]));
    }
    lemma_first_where_at(after, of_pane(p), k);
    let i = surface_index(tabs[k].surfaces@, uuid);
    lemma_first_where(tabs[k].surfaces@, is_surface(uuid));
    assert(after[k].surfaces@ == tabs[k].surfaces@);
    assert(after[k].selected == Some(i as usize));
    assert(entry_of(after, p) == k);
    assert(surfaces_of(after, p) == tabs[k].surfaces@);
    assert(i < tabs[k].surfaces@.len());
    assert(tabs[k].surfaces@.len() <= usize::MAX);
    assert((i as usize) as int == i);
    assert(shown_index(after, p) == i);
    assert(is_surface(uuid)(tabs[k].surfaces@[i]));
}

/// The first pane of the tree, in traversal order, holding a surface whose text is `text`.
pub open spec fn text_pane(tree: PaneTree, tabs: Seq<PaneTabs>, text: Seq<char>) -> Option<u64> {
    let ls = leaves(tree);
    let o = first_where(ls, shows_text(tabs, text));
    if o < ls.len() {
        Some(ls[o].0)
    } else {
        None
    }
}

/// Whether a surface's text is `text`.
pub open spec fn has_text(text: Seq<char>) -> spec_fn(u128) -> bool {
    |s: u128| hyphenated(s) == text
}

/// Index of the first surface of a tab list whose text is `text`, or the count.
pub open spec fn text_index(surfaces: Seq<u128>, text: Seq<char>) -> int {
    first_where(surfaces, has_text(text))
}

/// The surface whose text is `text`: the first such surface of the first pane holding one.
pub open spec fn text_surface(tree: PaneTree, tabs: Seq<PaneTabs>, text: Seq<char>) -> Option<u128> {
    match text_pane(tree, tabs, text) {
        Some(p) => Some(surfaces_of(tabs, p)[text_index(surfaces_of(tabs, p), text)]),
        None => None,
    }
}

/// Position of the first surface whose text is `text` in a tab list.
fn text_position(v: &Vec<u128>, text: &Vec<char>) -> (i: usize)
    ensures
        i == text_index(v@, text@),
{
    let mut i: usize = 0;
    while i < v.len()
        invariant
            i <= v@.len(),
            forall|j: int| 0 <= j < i ==> !has_text(text@)(#[trigger] v@[j]),
        decreases v@.len() - i,
    {
        let shown = uuid_text(v[i]);
        if same_chars(&shown, text) {
            proof {
                assert(has_text(text@)(v@[i as int]));
                lemma_first_where_at(v@, has_text(text@), i as int);
            }
            return i;
        }
        i = i + 1;
    }
    proof {
        lemma_first_where_at(v@, has_text(text@), i as int);
    }
    i
}

/// The pane `text_pane` finds holds a tab list with a surface of that text.
proof fn lemma_text_entry(tree: PaneTree, tabs: Seq<PaneTabs>, text: Seq<char>)
    requires
        text_pane(tree, tabs, text) is Some,
    ensures
        ({
            let p = text_pane(tree, tabs, text)->Some_0;
            let k = entry_of(tabs, p);
            &&& k < tabs.len()
            &&& tabs[k].pane_id == p
            &&& surfaces_of(tabs, p) == tabs[k].surfaces@
            &&& text_index(tabs[k].surfaces@, text) < tabs[k].surfaces@.len()
            &&& hyphenated(tabs[k].surfaces@[text_index(tabs[k].surfaces@, text)]) == text
            &&& index_of(leaves(tree), p) < leaves(tree).len()
        }),
{
    let ls = leaves(tree);
    lemma_first_where(ls, shows_text(tabs, text));
    let o = first_where(ls, shows_text(tabs, text));
    let p = ls[o].0;
    lemma_index_of_found(ls, p, o);
    assert(shows_text(tabs, text)(ls[o]));
    let s = surfaces_of(tabs, p);
    let w = choose|i: int| 0 <= i < s.len() && #[trigger] hyphenated(s[i]) == text;
    lemma_first_where(tabs, of_pane(p));
    let k = entry_of(tabs, p);
    assert(k < tabs.len());
    lemma_first_where(s, has_text(text));
    assert(has_text(text)(s[w]));
    let t = text_index(s, text);
    assert(t <= w);
    assert(has_text(text)(s[t]));
}

impl PaneLayout {
    /// The surface whose text is `text`: the first such surface of the first pane holding one.
    pub fn surface_with_text(&self, tabs: &Vec<PaneTabs>, text: &Vec<char>) -> (r: Option<u128>)
        requires
            self.wf(),
        ensures
            r == text_surface(self.tree(), tabs@, text@),
    {
        let pane = match self.first_pane_with_text(tabs, text) {
            Some(p) => p,
            None => return None,
        };
        proof {
            lemma_text_entry(self.tree(), tabs@, text@);
        }
        let k = entry_index(tabs, pane);
        let i = text_position(&tabs[k].surfaces, text);
        Some(tabs[k].surfaces[i])
    }

    /// Focus the pane holding a surface whose text is `text` and show that tab; false, with
    /// nothing changed, when no pane of the layout holds one.
    pub fn focus_surface_text(&mut self, tabs: &mut Vec<PaneTabs>, text: &Vec<char>) -> (r: bool)
        requires
            old(self).wf(),
        ensures
            final(self).wf(),
            final(self).tree() == old(self).tree(),
            final(self).next() == old(self).next(),
            r == text_pane(old(self).tree(), old(tabs)@, text@) is Some,
            match text_pane(old(self).tree(), old(tabs)@, text@) {
                Some(p) => {
                    let k = entry_of(old(tabs)@, p);
                    &&& final(self).active() == p
                    &&& tabs_model(final(tabs)@) == tabs_model(old(tabs)@).update(
                        k,
                        (
                            p,
                            old(tabs)@[k].surfaces@,
                            Some(text_index(old(tabs)@[k].surfaces@, text@) as usize),
                        ),
                    )
                },
                None => final(self).active() == old(self).active() && final(tabs)@ == old(tabs)@,
            },
    {
        let pane = match self.first_pane_with_text(tabs, text) {
            Some(p) => p,
            None => return false,
        };
        proof {
            lemma_text_entry(self.tree(), tabs@, text@);
        }
        let k = entry_index(tabs, pane);
        let i = text_position(&tabs[k].surfaces, text);
        let ghost before = tabs@;
        let mut entry = tabs.remove(k);
        assert(entry == before[k as int]);
        entry.selected = Some(i);
        tabs.insert(k, entry);
        proof {
            assert(tabs_model(tabs@) =~= tabs_model(before).update(
                k as int,
                (pane, before[k as int].surfaces@, Some(i)),
            ));
        }
        let ok = self.activate_pane(pane);
        assert(ok);
        true
    }
}

/// A saved pane tree as a session file holds it: a legacy pane with one terminal, a tabbed
/// pane with its surfaces in tab order and the surface it showed, or a split of two subtrees.
/// Divider orientation and position belong to the widgets and are not part of the model.
pub enum SavedNode {
    Leaf { surface: u128 },
    Pane { active: Option<u128>, surfaces: Vec<u128> },
    Split { start: Box<SavedNode>, end: Box<SavedNode> },
}

/// Whether no split of a saved tree below nesting `depth` lies deeper than `MAX_LAYOUT_DEPTH`.
pub open spec fn saved_depth_ok(d: SavedNode, depth: nat) -> bool
    decreases d,
{
    depth <= MAX_LAYOUT_DEPTH && match d {
        SavedNode::Split { start, end } => saved_depth_ok(*start, depth + 1) && saved_depth_ok(*end, depth + 1),
        _ => true,
    }
}

/// The number of panes a saved tree holds.
pub open spec fn saved_panes(d: SavedNode) -> nat
    decreases d,
{
    match d {
        SavedNode::Split { start, end } => saved_panes(*start) + saved_panes(*end),
        _ => 1,
    }
}

/// The number of saved panes without a surface, each of which restores with a fresh terminal.
pub open spec fn saved_empty(d: SavedNode) -> nat
    decreases d,
{
    match d {
        SavedNode::Split { start, end } => saved_empty(*start) + saved_empty(*end),
        SavedNode::Pane { surfaces, .. } => if surfaces@.len() == 0 {
            1
        } else {
            0
        },
        SavedNode::Leaf { .. } => 0,
    }
}

/// The tab a restored pane shows: the saved shown surface when the pane holds it, else the first.
pub open spec fn shown_position(surfaces: Seq<u128>, active: Option<u128>) -> int {
    match active {
        Some(u) => {
            let i = first_where(surfaces, is_surface(u));
            if i < surfaces.len() {
                i
            } else {
                0
            }
        },
        None => 0,
    }
}

/// The tree a saved tree restores to, its panes numbered in order from `first`.
pub open spec fn restored_tree(d: SavedNode, first: int) -> PaneTree
    decreases d,
{
    match d {
        SavedNode::Split { start, end } => PaneTree::Split {
            start: Box::new(restored_tree(*start, first)),
            end: Box::new(restored_tree(*end, first + saved_panes(*start))),
        },
        _ => PaneTree::Leaf { pane_id: first as u64, has_attention: false },
    }
}

/// The tabs a saved tree restores to, in pane order, its panes numbered from `first`: each pane
/// keeps its saved surfaces in order and shows its saved surface (else the first); a legacy
/// pane holds its one terminal, and an empty pane takes the next of the `fresh` identities.
pub open spec fn restored_tabs(d: SavedNode, first: int, fresh: Seq<u128>) -> Seq<(u64, Seq<u128>, Option<usize>)>
    decreases d,
{
    match d {
        SavedNode::Leaf { surface } => seq![(first as u64, seq![surface], Some(0usize))],
        SavedNode::Pane { active, surfaces } => if surfaces@.len() == 0 {
            seq![(first as u64, seq![fresh[0]], Some(0usize))]
        } else {
            seq![(first as u64, surfaces@, Some(shown_position(surfaces@, active) as usize))]
        },
        SavedNode::Split { start, end } => restored_tabs(*start, first, fresh) + restored_tabs(
            *end,
            first + saved_panes(*start),
            fresh.skip(saved_empty(*start) as int),
        ),
    }
}

/// The panes of a restored tree are numbered in order from `first`, none with attention.
pub proof fn lemma_restored_leaves(d: SavedNode, first: int)
    ensures
        leaves(restored_tree(d, first)) == Seq::new(saved_panes(d), |i: int| ((first + i) as u64, false)),
    decreases d,
{
    match d {
        SavedNode::Split { start, end } => {
            lemma_restored_leaves(*start, first);
            lemma_restored_leaves(*end, first + saved_panes(*start));
            assert(leaves(restored_tree(d, first)) =~= Seq::new(saved_panes(d), |i: int| ((first + i) as u64, false)));
        },
        _ => {
            assert(leaves(restored_tree(d, first)) =~= Seq::new(saved_panes(d), |i: int| ((first + i) as u64, false)));
        },
    }
}

/// Position of the tab showing `active` among saved surfaces, else the first.
fn shown_tab(surfaces: &Vec<u128>, active: Option<u128>) -> (i: usize)
    requires
        surfaces@.len() > 0,
    ensures
        i == shown_position(surfaces@, active),
{
    match active {
        None => 0,
        Some(u) => {
            let mut i: usize = 0;
            while i < surfaces.len() && surfaces[i] != u
                invariant
                    i <= surfaces@.len(),
                    forall|j: int| 0 <= j < i ==> !is_surface(u)(#[trigger] surfaces@[j]),
                decreases surfaces@.len() - i,
            {
                i = i + 1;
            }
            proof {
                lemma_first_where_at(surfaces@, is_surface(u), i as int);
            }
            if i < surfaces.len() {
                i
            } else {
                0
            }
        },
    }
}

/// A copy of saved surfaces, in order.
fn copy_surfaces(surfaces: &Vec<u128>) -> (r: Vec<u128>)
    ensures
        r@ == surfaces@,
{
    let mut r: Vec<u128> = Vec::new();
    let mut i: usize = 0;
    while i < surfaces.len()
        invariant
            i <= surfaces@.len(),
            r@ == surfaces@.take(i as int),
        decreases surfaces@.len() - i,
    {
        r.push(surfaces[i]);
        assert(surfaces@.take(i + 1) =~= surfaces@.take(i as int).push(surfaces@[i as int]));
        i = i + 1;
    }
    assert(surfaces@.take(i as int) =~= surfaces@);
    r
}

/// Restore a saved subtree at nesting `depth`, numbering its panes from `next` and appending
/// their tabs; `used` fresh identities are already taken.
fn restore_node(
    data: &SavedNode,
    next: u64,
    depth: usize,
    fresh: &Vec<u128>,
    used: usize,
    tabs: &mut Vec<PaneTabs>,
) -> (r: Option<(PaneTree, u64, usize)>)
    requires
        used + saved_empty(*data) <= fresh@.len(),
    ensures
        r is None <==> !saved_depth_ok(*data, depth as nat) || next + saved_panes(*data) > u64::MAX,
        r matches Some((t, n, u)) ==> {
            &&& t == restored_tree(*data, next as int)
            &&& n == next + saved_panes(*data)
            &&& u == used + saved_empty(*data)
            &&& tabs_model(final(tabs)@) == tabs_model(old(tabs)@) + restored_tabs(
                *data,
                next as int,
                fresh@.skip(used as int),
            )
        },
    decreases data,
{
    if depth > MAX_LAYOUT_DEPTH {
        return None;
    }
    match data {
        SavedNode::Leaf { surface } => {
            if next == u64::MAX {
                return None;
            }
            let mut one: Vec<u128> = Vec::new();
            one.push(*surface);
            tabs.push(PaneTabs { pane_id: next, surfaces: one, selected: Some(0) });
            assert(tabs_model(tabs@) =~= tabs_model(old(tabs)@) + restored_tabs(
                *data,
                next as int,
                fresh@.skip(used as int),
            ));
            Some((PaneTree::Leaf { pane_id: next, has_attention: false }, next + 1, used))
        },
        SavedNode::Pane { active, surfaces } => {
            if next == u64::MAX {
                return None;
            }
            if surfaces.len() == 0 {
                assert(saved_empty(*data) == 1);
                let count = fresh.len();
                assert(used < count);
                let mut one: Vec<u128> = Vec::new();
                one.push(fresh[used]);
                tabs.push(PaneTabs { pane_id: next, surfaces: one, selected: Some(0) });
                assert(tabs_model(tabs@) =~= tabs_model(old(tabs)@) + restored_tabs(
                    *data,
                    next as int,
                    fresh@.skip(used as int),
                ));
                Some((PaneTree::Leaf { pane_id: next, has_attention: false }, next + 1, used + 1))
            } else {
                let shown = shown_tab(surfaces, *active);
                let copied = copy_surfaces(surfaces);
                tabs.push(PaneTabs { pane_id: next, surfaces: copied, selected: Some(shown) });
                assert(tabs_model(tabs@) =~= tabs_model(old(tabs)@) + restored_tabs(
                    *data,
                    next as int,
                    fresh@.skip(used as int),
                ));
                Some((PaneTree::Leaf { pane_id: next, has_attention: false }, next + 1, used))
            }
        },
        SavedNode::Split { start, end } => {
            let ghost before = tabs_model(tabs@);
            let (s, n1, u1) = match restore_node(start, next, depth + 1, fresh, used, tabs) {
                Some(x) => x,
                None => return None,
            };
            let ghost middle = tabs_model(tabs@);
            let (e, n2, u2) = match restore_node(end, n1, depth + 1, fresh, u1, tabs) {
                Some(x) => x,
                None => return None,
            };
            proof {
                assert(fresh@.skip(used as int).skip(saved_empty(**start) as int) =~= fresh@.skip(u1 as int));
                assert(tabs_model(tabs@) =~= before + restored_tabs(*data, next as int, fresh@.skip(used as int)));
            }
            Some((PaneTree::Split { start: Box::new(s), end: Box::new(e) }, n2, u2))
        },
    }
}

/// Restore a saved tree at nesting `depth`: its panes numbered in order from `next_pane_id`,
/// each pane's tabs as saved, and the id the next new pane gets; `None` when the tree nests
/// too deep or its pane ids would run out. `fresh` holds an identity for each empty pane.
pub fn restore_tree(data: &SavedNode, next_pane_id: u64, depth: usize, fresh: &Vec<u128>) -> (r: Option<
    (PaneTree, Vec<PaneTabs>, u64),
>)
    requires
        saved_empty(*data) <= fresh@.len(),
    ensures
        r is None <==> !saved_depth_ok(*data, depth as nat) || next_pane_id + saved_panes(*data) > u64::MAX,
        r matches Some((t, tabs, next)) ==> {
            &&& t == restored_tree(*data, next_pane_id as int)
            &&& ids(leaves(t)) == Seq::new(saved_panes(*data), |i: int| (next_pane_id + i) as u64)
            &&& next == next_pane_id + saved_panes(*data)
            &&& tabs_model(tabs@) == restored_tabs(*data, next_pane_id as int, fresh@)
        },
{
    let mut tabs: Vec<PaneTabs> = Vec::new();
    match restore_node(data, next_pane_id, depth, fresh, 0, &mut tabs) {
        Some((t, next, _)) => {
            proof {
                lemma_restored_leaves(*data, next_pane_id as int);
                assert(ids(leaves(t)) =~= Seq::new(saved_panes(*data), |i: int| (next_pane_id + i) as u64));
                assert(fresh@.skip(0) =~= fresh@);
                assert(tabs_model(tabs@) =~= restored_tabs(*data, next_pane_id as int, fresh@));
            }
            Some((t, tabs, next))
        },
        None => None,
    }
}

/// Whether a restored pane's tabs hold surface `u`.
pub open spec fn holds_surface(u: u128) -> spec_fn((u64, Seq<u128>, Option<usize>)) -> bool {
    |t: (u64, Seq<u128>, Option<usize>)| t.1.contains(u)
}

/// The pane a restored layout focuses: the first pane holding the saved focused surface, else
/// the first pane, `first`.
pub open spec fn restored_active(tabs: Seq<(u64, Seq<u128>, Option<usize>)>, active: Option<u128>, first: u64) -> u64 {
    match active {
        Some(u) => {
            let k = first_where(tabs, holds_surface(u));
            if k < tabs.len() {
                tabs[k].0
            } else {
                first
            }
        },
        None => first,
    }
}

/// A saved tree holds at least one pane.
proof fn lemma_saved_panes_positive(d: SavedNode)
    ensures
        saved_panes(d) >= 1,
    decreases d,
{
    if let SavedNode::Split { start, end } = d {
        lemma_saved_panes_positive(*start);
    }
}

/// The restored tabs list one entry per pane, numbered in order from `first`.
proof fn lemma_restored_tab_ids(d: SavedNode, first: int, fresh: Seq<u128>)
    ensures
        restored_tabs(d, first, fresh).len() == saved_panes(d),
        forall|k: int| 0 <= k < saved_panes(d) ==> (#[trigger] restored_tabs(d, first, fresh)[k]).0 == (first + k) as u64,
    decreases d,
{
    if let SavedNode::Split { start, end } = d {
        let f2 = fresh.skip(saved_empty(*start) as int);
        lemma_restored_tab_ids(*start, first, fresh);
        lemma_restored_tab_ids(*end, first + saved_panes(*start), f2);
        let a = restored_tabs(*start, first, fresh);
        let b = restored_tabs(*end, first + saved_panes(*start), f2);
        assert forall|k: int| 0 <= k < saved_panes(d) implies (#[trigger] restored_tabs(d, first, fresh)[k]).0 == (first + k) as u64 by {
            if k >= a.len() {
                assert(restored_tabs(d, first, fresh)[k] == b[k - a.len()]);
            } else {
                assert(restored_tabs(d, first, fresh)[k] == a[k]);
            }
        }
    }
}

/// Whether a tab list holds surface `u`.
fn holds_tab(v: &Vec<u128>, u: u128) -> (r: bool)
    ensures
        r == v@.contains(u),
{
    let mut i: usize = 0;
    while i < v.len()
        invariant
            i <= v@.len(),
            forall|j: int| 0 <= j < i ==> v@[j] != u,
        decreases v@.len() - i,
    {
        if v[i] == u {
            assert(v@[i as int] == u);
            return true;
        }
        i = i + 1;
    }
    false
}

/// Restore a saved workspace layout: the tree and tabs `restore_tree` gives from nesting zero,
/// focused on the first pane holding the saved focused surface, else on the first pane.
pub fn restore_layout(data: &SavedNode, active_surface: Option<u128>, next_pane_id: u64, fresh: &Vec<u128>) -> (r: Option<
    (PaneLayout, Vec<PaneTabs>),
>)
    requires
        saved_empty(*data) <= fresh@.len(),
    ensures
        r is None <==> !saved_depth_ok(*data, 0) || next_pane_id + saved_panes(*data) > u64::MAX,
        r matches Some((l, tabs)) ==> {
            &&& l.wf()
            &&& l.tree() == restored_tree(*data, next_pane_id as int)
            &&& l.next() == next_pane_id + saved_panes(*data)
            &&& tabs_model(tabs@) == restored_tabs(*data, next_pane_id as int, fresh@)
            &&& l.active() == restored_active(tabs_model(tabs@), active_surface, next_pane_id)
        },
{
    let (root, tabs, next) = match restore_tree(data, next_pane_id, 0, fresh) {
        Some(x) => x,
        None => return None,
    };
    let ghost tm = tabs_model(tabs@);
    proof {
        lemma_restored_tab_ids(*data, next_pane_id as int, fresh@);
        lemma_restored_leaves(*data, next_pane_id as int);
        lemma_saved_panes_positive(*data);
    }
    let mut active = next_pane_id;
    let ghost mut pos: int = 0;
    match active_surface {
        Some(u) => {
            let mut k: usize = 0;
            while k < tabs.len() && !holds_tab(&tabs[k].surfaces, u)
                invariant
                    k <= tabs@.len(),
                    tm == tabs_model(tabs@),
                    forall|j: int| 0 <= j < k ==> !holds_surface(u)(#[trigger] tm[j]),
                decreases tabs@.len() - k,
            {
                k = k + 1;
            }
            proof {
                lemma_first_where_at(tm, holds_surface(u), k as int);
            }
            if k < tabs.len() {
                active = tabs[k].pane_id;
                proof {
                    pos = k as int;
                    assert(tm[pos].0 == active);
                }
            }
        },
        None => {},
    }
    let ghost ls = leaves(root);
    let ghost n = saved_panes(*data);
    proof {
        assert(ls.len() == n);
        assert forall|i: int, j: int| 0 <= i < j < ls.len() implies ls[i].0 != ls[j].0 by {}
        assert forall|i: int| 0 <= i < ls.len() implies (#[trigger] ls[i]).0 < next by {}
        assert(0 <= pos < n && ls[pos].0 == active);
        lemma_index_of_found(ls, active, pos);
    }
    let l = PaneLayout { root, active_pane_id: active, next_pane_id: next };
    Some((l, tabs))
}

/// How many fresh identities restoring a saved tree takes: its empty panes, saturating at
/// `usize::MAX`.
pub fn empty_panes(data: &SavedNode) -> (n: usize)
    ensures
        n == (if saved_empty(*data) < usize::MAX {
            saved_empty(*data)
        } else {
            usize::MAX as nat
        }),
    decreases data,
{
    match data {
        SavedNode::Leaf { .. } => 0,
        SavedNode::Pane { surfaces, .. } => if surfaces.len() == 0 {
            1
        } else {
            0
        },
        SavedNode::Split { start, end } => {
            let a = empty_panes(start);
            let b = empty_panes(end);
            a.saturating_add(b)
        },
    }
}

} // verus!
