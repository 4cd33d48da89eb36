//! Nodes of the search tree: the links that place a node in the tree, the
//! game state it stands for and its visit statistics.
//!
//! Nodes are stored in an arena and linked by indices. The running sum of
//! the evaluations of a node is a floating-point statistic and is kept by the
//! search beside the arena.
use crate::state::State;
use vstd::prelude::*;

verus! {

/// Index into the arena.
pub type NodeId = usize;

/// Node in the tree search (arena-allocated).
///
/// All pointer-like relationships use `Option<NodeId>` instead of actual
/// pointers, enabling storage in a contiguous `Vec`.
#[derive(Debug, Clone, Copy, PartialEq, Eq, Structural)]
pub struct Node {
    /// Parent node index (None for root).
    pub parent: Option<NodeId>,
    /// First child index (None if no children).
    pub first_child: Option<NodeId>,
    /// Next sibling index (None if last sibling).
    pub next_sibling: Option<NodeId>,
    /// Game state at this node.
    pub state: State,
    /// Action that led to this node (None for root).
    pub action: Option<usize>,
    /// Visit count.
    pub visit_count: u32,
    /// Whether node is expanded (children generated).
    pub is_expanded: bool,
}

impl Node {
    /// Creates a new [`Node`] with the given `state` and optional `action`.
    pub fn new(state: State, action: Option<usize>) -> (res: Self)
        ensures
            res.parent is None,
            res.first_child is None,
            res.next_sibling is None,
            res.state == state,
            res.action == action,
            res.visit_count == 0,
            !res.is_expanded,
    {
        Self {
            parent: None,
            first_child: None,
            next_sibling: None,
            state,
            action,
            visit_count: 0,
            is_expanded: false,
        }
    }

    /// Returns the state of this node.
    pub fn state(&self) -> (res: &State)
        ensures
            *res == self.state,
    {
        &self.state
    }

    /// Returns the action that led to this node.
    pub fn action(&self) -> (res: Option<usize>)
        ensures
            res == self.action,
    {
        self.action
    }

    /// Returns the visit count.
    pub fn visit_count(&self) -> (res: u32)
        ensures
            res == self.visit_count,
    {
        self.visit_count
    }

    /// Increments the visit count by 1.
    pub fn increment_visit_count(&mut self)
        requires
            old(self).visit_count < u32::MAX,
        ensures
            final(self).visit_count == old(self).visit_count + 1,
            final(self).is_expanded == old(self).is_expanded,
            same_but_visits(*old(self), *final(self)),
    {
        self.visit_count += 1;
    }

    /// Returns whether the node is expanded.
    pub fn is_expanded(&self) -> (res: bool)
        ensures
            res == self.is_expanded,
    {
        self.is_expanded
    }

    /// Sets the expanded flag.
    pub fn set_expanded(&mut self, expanded: bool)
        ensures
            final(self).is_expanded == expanded,
            final(self).visit_count == old(self).visit_count,
            same_but_visits(*old(self), *final(self)),
    {
        self.is_expanded = expanded;
    }

    /// Returns true if the node has no children.
    pub fn is_leaf(&self) -> (res: bool)
        ensures
            res == self.first_child is None,
    {
        self.first_child.is_none()
    }
}

/// `b` is `a` with new links: `b` has the given links and the state, action,
/// visit count and expanded flag of `a`.
pub open spec fn relinked(
    a: Node,
    b: Node,
    parent: Option<NodeId>,
    first_child: Option<NodeId>,
    next_sibling: Option<NodeId>,
) -> bool {
    &&& b.parent == parent
    &&& b.first_child == first_child
    &&& b.next_sibling == next_sibling
    &&& b.state == a.state
    &&& b.action == a.action
    &&& b.visit_count == a.visit_count
    &&& b.is_expanded == a.is_expanded
}

/// `b` is `a` but for its visit count and expanded flag: same links, state
/// and action.
pub open spec fn same_but_visits(a: Node, b: Node) -> bool {
    &&& b.parent == a.parent
    &&& b.first_child == a.first_child
    &&& b.next_sibling == a.next_sibling
    &&& b.state == a.state
    &&& b.action == a.action
}

} // verus!
