//! A tab's panel layout: a binary tree whose leaves are terminal panels and
//! whose inner nodes split their area horizontally or vertically.
use vstd::prelude::*;
use crate::sequences::{
    lemma_concat_contains, lemma_concat_no_duplicates, lemma_remove_first_absent,
    lemma_remove_first_concat, lemma_remove_first_single, lemma_single_contains,
    lemma_subst_concat, lemma_subst_single, remove_first, subst,
};

verus! {

/// Identifies a panel (a focusable leaf of the layout).
#[derive(Debug, Clone, Copy, PartialEq, Eq, Hash, Structural)]
pub struct PanelId(pub u64);

/// Stands for the terminal that a panel shows: the front end keeps the
/// terminal itself and finds it again by this key.
#[derive(Debug, Clone, Copy, PartialEq, Eq, Hash, Structural)]
pub struct TerminalKey(pub u64);

/// A direction in which focus can move between panels.
#[derive(Debug, Clone, Copy, PartialEq, Eq, Structural)]
pub enum NavDirection {
    Left,
    Right,
    Up,
    Down,
}

/// The layout tree of one tab.
///
/// `Horizontal(a, b)` places `a` left of `b`; `Vertical(a, b)` places `a`
/// above `b`.
#[derive(Debug, PartialEq, Eq)]
pub enum PanelNode {
    Leaf(PanelId, TerminalKey),
    Horizontal(Box<PanelNode>, Box<PanelNode>),
    Vertical(Box<PanelNode>, Box<PanelNode>),
}

impl PanelNode {
    /// The panels of the tree, left to right (top to bottom).
    pub open spec fn leaf_seq(self) -> Seq<PanelId>
        decreases self,
    {
        match self {
            PanelNode::Leaf(id, _) => seq![id],
            PanelNode::Horizontal(a, b) => a.leaf_seq() + b.leaf_seq(),
            PanelNode::Vertical(a, b) => a.leaf_seq() + b.leaf_seq(),
        }
    }

    /// The terminals of the tree's panels, left to right (top to bottom).
    pub open spec fn terminal_seq(self) -> Seq<TerminalKey>
        decreases self,
    {
        match self {
            PanelNode::Leaf(_, t) => seq![t],
            PanelNode::Horizontal(a, b) => a.terminal_seq() + b.terminal_seq(),
            PanelNode::Vertical(a, b) => a.terminal_seq() + b.terminal_seq(),
        }
    }

    /// Whether `id` names a panel of the tree.
    pub fn contains(&self, id: PanelId) -> (r: bool)
        ensures
            r == self.leaf_seq().contains(id),
        decreases self,
    {
        match self {
            PanelNode::Leaf(pid, _) => {
                assert(self.leaf_seq()[0] == *pid);
                *pid == id
            },
            PanelNode::Horizontal(a, b) => {
                let r = a.contains(id) || b.contains(id);
                proof { lemma_concat_contains(a.leaf_seq(), b.leaf_seq(), id); }
                r
            },
            PanelNode::Vertical(a, b) => {
                let r = a.contains(id) || b.contains(id);
                proof { lemma_concat_contains(a.leaf_seq(), b.leaf_seq(), id); }
                r
            },
        }
    }

    /// The panels of the tree, left to right (top to bottom).
    pub fn leaves(&self) -> (r: Vec<PanelId>)
        ensures
            r@ == self.leaf_seq(),
            r@.len() >= 1,
        decreases self,
    {
        proof { lemma_leaves_nonempty(*self); }
        match self {
            PanelNode::Leaf(id, _) => vec![*id],
            PanelNode::Horizontal(a, b) => {
                let mut v = a.leaves();
                let mut w = b.leaves();
                v.append(&mut w);
                v
            },
            PanelNode::Vertical(a, b) => {
                let mut v = a.leaves();
                let mut w = b.leaves();
                v.append(&mut w);
                v
            },
        }
    }

    /// The terminals of all panels, left to right (top to bottom).
    pub fn all_handles(&self) -> (r: Vec<TerminalKey>)
        ensures
            r@ == self.terminal_seq(),
            r@.len() == self.leaf_seq().len(),
            self.leaf_seq().no_duplicates() ==> forall|i: int|
                0 <= i < r@.len() ==> self.terminal_of(#[trigger] self.leaf_seq()[i]) == Some(r@[i]),
        decreases self,
    {
        proof {
            if self.leaf_seq().no_duplicates() {
                assert forall|i: int| 0 <= i < self.leaf_seq().len() implies self.terminal_of(
                    #[trigger] self.leaf_seq()[i],
                ) == Some(self.terminal_seq()[i]) by {
                    lemma_terminal_at(*self, i);
                }
            }
        }
        match self {
            PanelNode::Leaf(_, t) => vec![*t],
            PanelNode::Horizontal(a, b) => {
                let mut v = a.all_handles();
                let mut w = b.all_handles();
                v.append(&mut w);
                v
            },
            PanelNode::Vertical(a, b) => {
                let mut v = a.all_handles();
                let mut w = b.all_handles();
                v.append(&mut w);
                v
            },
        }
    }
}

impl Clone for PanelNode {
    fn clone(&self) -> (res: Self)
        ensures
            res == *self,
        decreases self,
    {
        match self {
            PanelNode::Leaf(id, t) => PanelNode::Leaf(*id, *t),
            PanelNode::Horizontal(a, b) => PanelNode::Horizontal(
                Box::new((**a).clone()),
                Box::new((**b).clone()),
            ),
            PanelNode::Vertical(a, b) => PanelNode::Vertical(
                Box::new((**a).clone()),
                Box::new((**b).clone()),
            ),
        }
    }
}

impl PanelNode {
    /// Whether this node is the leaf of panel `id`.
    pub open spec fn is_leaf_of(self, id: PanelId) -> bool {
        self matches PanelNode::Leaf(pid, _) && pid == id
    }

    /// The terminal of the first panel `id` met left to right, if any.
    pub open spec fn terminal_of(self, id: PanelId) -> Option<TerminalKey>
        decreases self,
    {
        match self {
            PanelNode::Leaf(pid, t) => if pid == id {
                Some(t)
            } else {
                None
            },
            PanelNode::Horizontal(a, b) => if a.terminal_of(id) is Some {
                a.terminal_of(id)
            } else {
                b.terminal_of(id)
            },
            PanelNode::Vertical(a, b) => if a.terminal_of(id) is Some {
                a.terminal_of(id)
            } else {
                b.terminal_of(id)
            },
        }
    }

    /// The tree with every leaf of panel `target` replaced by `replacement`.
    pub open spec fn replaced(self, target: PanelId, replacement: PanelNode) -> PanelNode
        decreases self,
    {
        match self {
            PanelNode::Leaf(id, _) => if id == target {
                replacement
            } else {
                self
            },
            PanelNode::Horizontal(a, b) => PanelNode::Horizontal(
                Box::new(a.replaced(target, replacement)),
                Box::new(b.replaced(target, replacement)),
            ),
            PanelNode::Vertical(a, b) => PanelNode::Vertical(
                Box::new(a.replaced(target, replacement)),
                Box::new(b.replaced(target, replacement)),
            ),
        }
    }

    /// The tree without the first leaf of panel `target`: its sibling takes
    /// the place of the split that held it. `None` when the tree is that
    /// leaf alone.
    pub open spec fn removed(self, target: PanelId) -> Option<PanelNode>
        decreases self,
    {
        match self {
            PanelNode::Leaf(id, _) => if id == target {
                None
            } else {
                Some(self)
            },
            PanelNode::Horizontal(a, b) => if a.leaf_seq().contains(target) {
                if a.is_leaf_of(target) {
                    Some(*b)
                } else {
                    match a.removed(target) {
                        Some(na) => Some(PanelNode::Horizontal(Box::new(na), b)),
                        None => None,
                    }
                }
            } else {
                if b.is_leaf_of(target) {
                    Some(*a)
                } else {
                    match b.removed(target) {
                        Some(nb) => Some(PanelNode::Horizontal(a, Box::new(nb))),
                        None => None,
                    }
                }
            },
            PanelNode::Vertical(a, b) => if a.leaf_seq().contains(target) {
                if a.is_leaf_of(target) {
                    Some(*b)
                } else {
                    match a.removed(target) {
                        Some(na) => Some(PanelNode::Vertical(Box::new(na), b)),
                        None => None,
                    }
                }
            } else {
                if b.is_leaf_of(target) {
                    Some(*a)
                } else {
                    match b.removed(target) {
                        Some(nb) => Some(PanelNode::Vertical(a, Box::new(nb))),
                        None => None,
                    }
                }
            },
        }
    }

    /// The panel that focus moves to from `target` in direction `dir`.
    ///
    /// The closest split that can resolve the move decides: the part that
    /// holds `target` is asked first, and only when it has no neighbour does
    /// this split resolve the move (to the right or down when `target` is in
    /// the first part, to the left or up when it is in the second) to the
    /// first panel of its other part. A panel that occurs in both parts
    /// counts as in the first part, except that a move to the left or up
    /// that the first part cannot make is resolved by this split.
    pub open spec fn neighbour(self, target: PanelId, dir: NavDirection) -> Option<PanelId>
        decreases self,
    {
        match self {
            PanelNode::Leaf(_, _) => None,
            PanelNode::Horizontal(a, b) => if a.leaf_seq().contains(target) {
                if a.neighbour(target, dir) is Some {
                    a.neighbour(target, dir)
                } else if dir == NavDirection::Right {
                    Some(b.leaf_seq()[0])
                } else if dir == NavDirection::Left && b.leaf_seq().contains(target) {
                    Some(a.leaf_seq()[0])
                } else {
                    None
                }
            } else if b.leaf_seq().contains(target) {
                if b.neighbour(target, dir) is Some {
                    b.neighbour(target, dir)
                } else if dir == NavDirection::Left {
                    Some(a.leaf_seq()[0])
                } else {
                    None
                }
            } else {
                None
            },
            PanelNode::Vertical(a, b) => if a.leaf_seq().contains(target) {
                if a.neighbour(target, dir) is Some {
                    a.neighbour(target, dir)
                } else if dir == NavDirection::Down {
                    Some(b.leaf_seq()[0])
                } else if dir == NavDirection::Up && b.leaf_seq().contains(target) {
                    Some(a.leaf_seq()[0])
                } else {
                    None
                }
            } else if b.leaf_seq().contains(target) {
                if b.neighbour(target, dir) is Some {
                    b.neighbour(target, dir)
                } else if dir == NavDirection::Up {
                    Some(a.leaf_seq()[0])
                } else {
                    None
                }
            } else {
                None
            },
        }
    }

    /// Whether this node is the leaf of panel `id`.
    fn is_leaf_with(&self, id: PanelId) -> (r: bool)
        ensures
            r == self.is_leaf_of(id),
    {
        match self {
            PanelNode::Leaf(pid, _) => *pid == id,
            _ => false,
        }
    }

    /// The terminal shown by panel `id` (the first such leaf, left to right).
    pub fn handle(&self, id: PanelId) -> (r: Option<TerminalKey>)
        ensures
            r == self.terminal_of(id),
            r is Some <==> self.leaf_seq().contains(id),
        decreases self,
    {
        proof { lemma_terminal_of_contains(*self, id); }
        match self {
            PanelNode::Leaf(pid, t) => if *pid == id {
                Some(*t)
            } else {
                None
            },
            PanelNode::Horizontal(a, b) => match a.handle(id) {
                Some(t) => Some(t),
                None => b.handle(id),
            },
            PanelNode::Vertical(a, b) => match a.handle(id) {
                Some(t) => Some(t),
                None => b.handle(id),
            },
        }
    }

    /// Replaces every leaf of panel `target` by `replacement`.
    pub fn replace_leaf(self, target: PanelId, replacement: PanelNode) -> (r: PanelNode)
        ensures
            r == self.replaced(target, replacement),
            r.leaf_seq() == subst(self.leaf_seq(), target, replacement.leaf_seq()),
            !self.leaf_seq().contains(target) ==> r == self,
        decreases self,
    {
        proof {
            lemma_replaced_leaves(self, target, replacement);
            if !self.leaf_seq().contains(target) {
                lemma_replaced_absent(self, target, replacement);
            }
        }
        match self {
            PanelNode::Leaf(id, t) => if id == target {
                replacement
            } else {
                PanelNode::Leaf(id, t)
            },
            PanelNode::Horizontal(a, b) => PanelNode::Horizontal(
                Box::new((*a).replace_leaf(target, replacement.clone())),
                Box::new((*b).replace_leaf(target, replacement)),
            ),
            PanelNode::Vertical(a, b) => PanelNode::Vertical(
                Box::new((*a).replace_leaf(target, replacement.clone())),
                Box::new((*b).replace_leaf(target, replacement)),
            ),
        }
    }

    /// Removes the first leaf of panel `target`; its sibling takes the place
    /// of the split that held it. `None` when the tree is that leaf alone.
    pub fn remove_leaf(self, target: PanelId) -> (r: Option<PanelNode>)
        ensures
            r == self.removed(target),
            r is None <==> self.is_leaf_of(target),
            r matches Some(n) ==> n.leaf_seq() == remove_first(self.leaf_seq(), target),
            !self.leaf_seq().contains(target) ==> r == Some(self),
        decreases self,
    {
        proof { lemma_removed(self, target); }
        match self {
            PanelNode::Leaf(id, t) => if id == target {
                None
            } else {
                Some(PanelNode::Leaf(id, t))
            },
            PanelNode::Horizontal(a, b) => {
                if a.contains(target) {
                    if a.is_leaf_with(target) {
                        return Some(*b);
                    }
                    let new_a = (*a).remove_leaf(target)?;
                    Some(PanelNode::Horizontal(Box::new(new_a), b))
                } else {
                    if b.is_leaf_with(target) {
                        return Some(*a);
                    }
                    let new_b = (*b).remove_leaf(target)?;
                    Some(PanelNode::Horizontal(a, Box::new(new_b)))
                }
            },
            PanelNode::Vertical(a, b) => {
                if a.contains(target) {
                    if a.is_leaf_with(target) {
                        return Some(*b);
                    }
                    let new_a = (*a).remove_leaf(target)?;
                    Some(PanelNode::Vertical(Box::new(new_a), b))
                } else {
                    if b.is_leaf_with(target) {
                        return Some(*a);
                    }
                    let new_b = (*b).remove_leaf(target)?;
                    Some(PanelNode::Vertical(a, Box::new(new_b)))
                }
            },
        }
    }

    /// The neighbour of panel `target` in direction `dir`, if there is one.
    pub fn find_neighbour(&self, target: PanelId, dir: NavDirection) -> (r: Option<PanelId>)
        ensures
            r == self.neighbour(target, dir),
            r matches Some(n) ==> {
                &&& self.leaf_seq().contains(n)
                &&& self.leaf_seq().contains(target)
                &&& self.leaf_seq().no_duplicates() ==> n != target
            },
        decreases self,
    {
        proof { lemma_neighbour_in_layout(*self, target, dir); }
        match self {
            PanelNode::Leaf(_, _) => None,
            PanelNode::Horizontal(a, b) => {
                let in_a = a.contains(target);
                let in_b = b.contains(target);
                proof {
                    lemma_leaves_nonempty(**a);
                    lemma_leaves_nonempty(**b);
                }
                if in_a {
                    match a.find_neighbour(target, dir) {
                        Some(n) => Some(n),
                        None => match dir {
                            NavDirection::Right => Some(b.leaves()[0]),
                            NavDirection::Left if in_b => Some(a.leaves()[0]),
                            _ => None,
                        },
                    }
                } else if in_b {
                    match b.find_neighbour(target, dir) {
                        Some(n) => Some(n),
                        None => match dir {
                            NavDirection::Left => Some(a.leaves()[0]),
                            _ => None,
                        },
                    }
                } else {
                    None
                }
            },
            PanelNode::Vertical(a, b) => {
                let in_a = a.contains(target);
                let in_b = b.contains(target);
                proof {
                    lemma_leaves_nonempty(**a);
                    lemma_leaves_nonempty(**b);
                }
                if in_a {
                    match a.find_neighbour(target, dir) {
                        Some(n) => Some(n),
                        None => match dir {
                            NavDirection::Down => Some(b.leaves()[0]),
                            NavDirection::Up if in_b => Some(a.leaves()[0]),
                            _ => None,
                        },
                    }
                } else if in_b {
                    match b.find_neighbour(target, dir) {
                        Some(n) => Some(n),
                        None => match dir {
                            NavDirection::Up => Some(a.leaves()[0]),
                            _ => None,
                        },
                    }
                } else {
                    None
                }
            },
        }
    }
}


/// The terminals and the panels of a layout come in the same order: when no
/// panel occurs twice, the terminal of the `i`-th panel is the `i`-th
/// terminal.
pub proof fn lemma_terminal_at(node: PanelNode, i: int)
    requires
        node.leaf_seq().no_duplicates(),
        0 <= i < node.leaf_seq().len(),
    ensures
        node.terminal_seq().len() == node.leaf_seq().len(),
        node.terminal_of(node.leaf_seq()[i]) == Some(node.terminal_seq()[i]),
    decreases node,
{
    lemma_terminal_count(node);
    match node {
        PanelNode::Leaf(_, _) => {},
        PanelNode::Horizontal(a, b) => {
            lemma_concat_no_duplicates(a.leaf_seq(), b.leaf_seq());
            lemma_terminal_count(*a);
            lemma_terminal_count(*b);
            let id = node.leaf_seq()[i];
            if i < a.leaf_seq().len() {
                lemma_terminal_at(*a, i);
            } else {
                let k = i - a.leaf_seq().len();
                assert(b.leaf_seq()[k] == id);
                assert(b.leaf_seq().contains(id));
                lemma_terminal_of_contains(*a, id);
                lemma_terminal_at(*b, k);
            }
        },
        PanelNode::Vertical(a, b) => {
            lemma_concat_no_duplicates(a.leaf_seq(), b.leaf_seq());
            lemma_terminal_count(*a);
            lemma_terminal_count(*b);
            let id = node.leaf_seq()[i];
            if i < a.leaf_seq().len() {
                lemma_terminal_at(*a, i);
            } else {
                let k = i - a.leaf_seq().len();
                assert(b.leaf_seq()[k] == id);
                assert(b.leaf_seq().contains(id));
                lemma_terminal_of_contains(*a, id);
                lemma_terminal_at(*b, k);
            }
        },
    }
}

/// A layout has as many terminals as panels.
pub proof fn lemma_terminal_count(node: PanelNode)
    ensures
        node.terminal_seq().len() == node.leaf_seq().len(),
    decreases node,
{
    match node {
        PanelNode::Leaf(_, _) => {},
        PanelNode::Horizontal(a, b) => {
            lemma_terminal_count(*a);
            lemma_terminal_count(*b);
        },
        PanelNode::Vertical(a, b) => {
            lemma_terminal_count(*a);
            lemma_terminal_count(*b);
        },
    }
}

/// Every layout has at least one panel.
pub proof fn lemma_leaves_nonempty(node: PanelNode)
    ensures
        node.leaf_seq().len() >= 1,
    decreases node,
{
    match node {
        PanelNode::Leaf(_, _) => {},
        PanelNode::Horizontal(a, b) => lemma_leaves_nonempty(*a),
        PanelNode::Vertical(a, b) => lemma_leaves_nonempty(*a),
    }
}

/// A panel has a terminal exactly when it is in the layout.
pub proof fn lemma_terminal_of_contains(node: PanelNode, id: PanelId)
    ensures
        node.terminal_of(id) is Some <==> node.leaf_seq().contains(id),
    decreases node,
{
    match node {
        PanelNode::Leaf(pid, _) => {
            assert(node.leaf_seq()[0] == pid);
        },
        PanelNode::Horizontal(a, b) => {
            lemma_terminal_of_contains(*a, id);
            lemma_terminal_of_contains(*b, id);
            lemma_concat_contains(a.leaf_seq(), b.leaf_seq(), id);
        },
        PanelNode::Vertical(a, b) => {
            lemma_terminal_of_contains(*a, id);
            lemma_terminal_of_contains(*b, id);
            lemma_concat_contains(a.leaf_seq(), b.leaf_seq(), id);
        },
    }
}


/// Replacing a panel replaces it, in the left-to-right order of panels, by
/// the panels of the replacement.
pub proof fn lemma_replaced_leaves(node: PanelNode, target: PanelId, replacement: PanelNode)
    ensures
        node.replaced(target, replacement).leaf_seq() == subst(
            node.leaf_seq(),
            target,
            replacement.leaf_seq(),
        ),
    decreases node,
{
    match node {
        PanelNode::Leaf(id, _) => {
            lemma_subst_single(id, target, replacement.leaf_seq());
        },
        PanelNode::Horizontal(a, b) => {
            lemma_replaced_leaves(*a, target, replacement);
            lemma_replaced_leaves(*b, target, replacement);
            lemma_subst_concat(a.leaf_seq(), b.leaf_seq(), target, replacement.leaf_seq());
        },
        PanelNode::Vertical(a, b) => {
            lemma_replaced_leaves(*a, target, replacement);
            lemma_replaced_leaves(*b, target, replacement);
            lemma_subst_concat(a.leaf_seq(), b.leaf_seq(), target, replacement.leaf_seq());
        },
    }
}

/// Replacing a panel that is not in the layout leaves the layout as it is.
pub proof fn lemma_replaced_absent(node: PanelNode, target: PanelId, replacement: PanelNode)
    requires
        !node.leaf_seq().contains(target),
    ensures
        node.replaced(target, replacement) == node,
    decreases node,
{
    match node {
        PanelNode::Leaf(id, _) => {
            lemma_single_contains(id, target);
        },
        PanelNode::Horizontal(a, b) => {
            lemma_concat_contains(a.leaf_seq(), b.leaf_seq(), target);
            lemma_replaced_absent(*a, target, replacement);
            lemma_replaced_absent(*b, target, replacement);
        },
        PanelNode::Vertical(a, b) => {
            lemma_concat_contains(a.leaf_seq(), b.leaf_seq(), target);
            lemma_replaced_absent(*a, target, replacement);
            lemma_replaced_absent(*b, target, replacement);
        },
    }
}

/// Removing a panel fails only on a layout that is that panel alone; else
/// the remaining panels keep their order, without the first occurrence of
/// the removed one, and a panel that is not in the layout leaves it as it is.
pub proof fn lemma_removed(node: PanelNode, target: PanelId)
    ensures
        node.removed(target) is None <==> node.is_leaf_of(target),
        node.removed(target) matches Some(r) ==> r.leaf_seq() == remove_first(
            node.leaf_seq(),
            target,
        ),
        !node.leaf_seq().contains(target) ==> node.removed(target) == Some(node),
    decreases node,
{
    match node {
        PanelNode::Leaf(id, _) => {
            lemma_remove_first_single(id, target);
            lemma_single_contains(id, target);
        },
        PanelNode::Horizontal(a, b) => {
            lemma_removed(*a, target);
            lemma_removed(*b, target);
            lemma_concat_contains(a.leaf_seq(), b.leaf_seq(), target);
            lemma_remove_first_concat(a.leaf_seq(), b.leaf_seq(), target);
            lemma_removed_leaf_part(*a, target);
            lemma_removed_leaf_part(*b, target);
            if !b.leaf_seq().contains(target) {
                lemma_remove_first_absent(b.leaf_seq(), target);
            }
        },
        PanelNode::Vertical(a, b) => {
            lemma_removed(*a, target);
            lemma_removed(*b, target);
            lemma_concat_contains(a.leaf_seq(), b.leaf_seq(), target);
            lemma_remove_first_concat(a.leaf_seq(), b.leaf_seq(), target);
            lemma_removed_leaf_part(*a, target);
            lemma_removed_leaf_part(*b, target);
            if !b.leaf_seq().contains(target) {
                lemma_remove_first_absent(b.leaf_seq(), target);
            }
        },
    }
}

/// A part that is the leaf of `target` leaves nothing when it is removed.
proof fn lemma_removed_leaf_part(node: PanelNode, target: PanelId)
    ensures
        node.is_leaf_of(target) ==> remove_first(node.leaf_seq(), target) =~= Seq::<
            PanelId,
        >::empty(),
        node.is_leaf_of(target) ==> node.leaf_seq().contains(target),
{
    if let PanelNode::Leaf(id, _) = node {
        lemma_remove_first_single(id, target);
        lemma_single_contains(id, target);
    }
}

/// The split node of the given orientation over `a` and `b`.
pub open spec fn split_of(horizontal: bool, a: PanelNode, b: PanelNode) -> PanelNode {
    if horizontal {
        PanelNode::Horizontal(Box::new(a), Box::new(b))
    } else {
        PanelNode::Vertical(Box::new(a), Box::new(b))
    }
}

/// The direction that leaves the first part of a split for the second:
/// right for a horizontal split, down for a vertical one.
pub open spec fn forward(horizontal: bool) -> NavDirection {
    if horizontal {
        NavDirection::Right
    } else {
        NavDirection::Down
    }
}

/// The direction that leaves the second part of a split for the first:
/// left for a horizontal split, up for a vertical one.
pub open spec fn backward(horizontal: bool) -> NavDirection {
    if horizontal {
        NavDirection::Left
    } else {
        NavDirection::Up
    }
}

/// Navigation across a split, for panels that occur on one side only:
/// - a panel in the first part always has a neighbour forward (right or
///   down): its neighbour inside the first part when it has one there, else
///   the first panel of the second part, whatever its shape;
/// - likewise a panel in the second part always has a neighbour backward;
/// - whenever the part holding the panel has a neighbour in some direction,
///   the split gives that same neighbour (the closest split decides);
/// - the split never resolves a move across the other axis, nor a move out
///   of it on the far side: those go to the part's own answer.
pub proof fn lemma_neighbour_across_split(
    horizontal: bool,
    a: PanelNode,
    b: PanelNode,
    t: PanelId,
    dir: NavDirection,
)
    requires
        a.leaf_seq().contains(t) != b.leaf_seq().contains(t),
    ensures
        ({
            let node = split_of(horizontal, a, b);
            &&& a.leaf_seq().contains(t) ==> node.neighbour(t, forward(horizontal)) is Some
            &&& a.leaf_seq().contains(t) && a.neighbour(t, forward(horizontal)) is None
                ==> node.neighbour(t, forward(horizontal)) == Some(b.leaf_seq()[0])
            &&& b.leaf_seq().contains(t) ==> node.neighbour(t, backward(horizontal)) is Some
            &&& b.leaf_seq().contains(t) && b.neighbour(t, backward(horizontal)) is None
                ==> node.neighbour(t, backward(horizontal)) == Some(a.leaf_seq()[0])
            &&& a.leaf_seq().contains(t) && a.neighbour(t, dir) is Some ==> node.neighbour(t, dir)
                == a.neighbour(t, dir)
            &&& b.leaf_seq().contains(t) && b.neighbour(t, dir) is Some ==> node.neighbour(t, dir)
                == b.neighbour(t, dir)
            &&& a.leaf_seq().contains(t) && dir != forward(horizontal) ==> node.neighbour(t, dir)
                == a.neighbour(t, dir)
            &&& b.leaf_seq().contains(t) && dir != backward(horizontal) ==> node.neighbour(t, dir)
                == b.neighbour(t, dir)
        }),
{
}

/// Navigation finds nothing outside the layout, and nothing in a layout of
/// one panel.
pub proof fn lemma_neighbour_none(node: PanelNode, t: PanelId, dir: NavDirection)
    ensures
        !node.leaf_seq().contains(t) ==> node.neighbour(t, dir) is None,
        node is Leaf ==> node.neighbour(t, dir) is None,
{
    lemma_neighbour_in_layout(node, t, dir);
}

/// Closing a panel that is a whole part of a split gives back the other part
/// exactly, orientation and inner shape included.
pub proof fn lemma_remove_whole_part(
    horizontal: bool,
    a: PanelNode,
    b: PanelNode,
    t: PanelId,
    k: TerminalKey,
)
    ensures
        split_of(horizontal, PanelNode::Leaf(t, k), b).removed(t) == Some(b),
        !a.leaf_seq().contains(t) ==> split_of(horizontal, a, PanelNode::Leaf(t, k)).removed(t)
            == Some(a),
{
    lemma_single_contains(t, t);
}

/// Closing a panel inside one part of a split keeps the split, its
/// orientation and its other part, and closes the panel inside that part.
pub proof fn lemma_remove_inside_part(horizontal: bool, a: PanelNode, b: PanelNode, t: PanelId)
    ensures
        a.leaf_seq().contains(t) && !a.is_leaf_of(t) ==> split_of(horizontal, a, b).removed(t)
            == Some(split_of(horizontal, a.removed(t)->0, b)),
        !a.leaf_seq().contains(t) && b.leaf_seq().contains(t) && !b.is_leaf_of(t) ==> split_of(
            horizontal,
            a,
            b,
        ).removed(t) == Some(split_of(horizontal, a, b.removed(t)->0)),
{
    lemma_removed(a, t);
    lemma_removed(b, t);
}

/// Replacing keeps every split and its orientation: the parts of a split are
/// replaced in place.
pub proof fn lemma_replace_in_parts(
    horizontal: bool,
    a: PanelNode,
    b: PanelNode,
    t: PanelId,
    r: PanelNode,
    k: TerminalKey,
)
    ensures
        split_of(horizontal, a, b).replaced(t, r) == split_of(
            horizontal,
            a.replaced(t, r),
            b.replaced(t, r),
        ),
        PanelNode::Leaf(t, k).replaced(t, r) == r,
{
}

/// The panels of a split, in order, are those of its first part followed by
/// those of its second part, and so are their terminals.
pub proof fn lemma_split_order(horizontal: bool, a: PanelNode, b: PanelNode)
    ensures
        split_of(horizontal, a, b).leaf_seq() == a.leaf_seq() + b.leaf_seq(),
        split_of(horizontal, a, b).terminal_seq() == a.terminal_seq() + b.terminal_seq(),
        forall|p: PanelId, k: TerminalKey| #[trigger] PanelNode::Leaf(p, k).leaf_seq() == seq![p],
{
}

/// A neighbour is found only for a panel of the layout, and it is itself a
/// panel of the layout; when no panel occurs twice it is another panel.
pub proof fn lemma_neighbour_in_layout(node: PanelNode, target: PanelId, dir: NavDirection)
    ensures
        node.neighbour(target, dir) matches Some(n) ==> {
            &&& node.leaf_seq().contains(n)
            &&& node.leaf_seq().contains(target)
            &&& node.leaf_seq().no_duplicates() ==> n != target
        },
    decreases node,
{
    match node {
        PanelNode::Leaf(_, _) => {},
        PanelNode::Horizontal(a, b) => {
            lemma_neighbour_in_layout(*a, target, dir);
            lemma_neighbour_in_layout(*b, target, dir);
            lemma_neighbour_parts(*a, *b, target, dir);
        },
        PanelNode::Vertical(a, b) => {
            lemma_neighbour_in_layout(*a, target, dir);
            lemma_neighbour_in_layout(*b, target, dir);
            lemma_neighbour_parts(*a, *b, target, dir);
        },
    }
}

/// The facts about the two parts of a split that the neighbour law needs.
proof fn lemma_neighbour_parts(a: PanelNode, b: PanelNode, target: PanelId, dir: NavDirection)
    ensures
        a.leaf_seq().contains(a.leaf_seq()[0]),
        b.leaf_seq().contains(b.leaf_seq()[0]),
        forall|x: PanelId|
            (a.leaf_seq() + b.leaf_seq()).contains(x) <==> (a.leaf_seq().contains(x)
                || b.leaf_seq().contains(x)),
        (a.leaf_seq() + b.leaf_seq()).no_duplicates() ==> {
            &&& a.leaf_seq().no_duplicates()
            &&& b.leaf_seq().no_duplicates()
            &&& forall|x: PanelId| a.leaf_seq().contains(x) ==> !b.leaf_seq().contains(x)
        },
{
    lemma_leaves_nonempty(a);
    lemma_leaves_nonempty(b);
    assert(a.leaf_seq().contains(a.leaf_seq()[0]));
    assert(b.leaf_seq().contains(b.leaf_seq()[0]));
    assert forall|x: PanelId|
        (a.leaf_seq() + b.leaf_seq()).contains(x) <==> (a.leaf_seq().contains(x)
            || b.leaf_seq().contains(x)) by {
        lemma_concat_contains(a.leaf_seq(), b.leaf_seq(), x);
    }
    lemma_concat_no_duplicates(a.leaf_seq(), b.leaf_seq());
}

} // verus!
