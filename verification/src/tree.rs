//! The search tree: an arena of nodes and the index of its root.
use crate::arena::Arena;
use crate::node::{Node, NodeId};
use crate::state::State;
use vstd::prelude::*;

verus! {

/// The search tree.
///
/// Contains the arena of all nodes and keeps track of the root node.
pub struct Tree {
    arena: Arena,
    root: NodeId,
}

impl Tree {
    /// The arena of this tree.
    pub closed spec fn arena_of(self) -> Arena {
        self.arena
    }

    /// The index of the root node.
    pub closed spec fn root_of(self) -> NodeId {
        self.root
    }

    /// Creates a new [`Tree`] with the given root state.
    pub fn new(root_state: State) -> (res: Self)
        ensures
            res.root_of() == 0,
            res.arena_of().wf(),
            res.arena_of().nodes_of().len() == 1,
            res.arena_of().nodes_of()[0].state == root_state,
            res.arena_of().nodes_of()[0].action is None,
            res.arena_of().nodes_of()[0].parent is None,
            res.arena_of().nodes_of()[0].first_child is None,
            res.arena_of().nodes_of()[0].next_sibling is None,
            res.arena_of().nodes_of()[0].visit_count == 0,
            !res.arena_of().nodes_of()[0].is_expanded,
    {
        let mut arena = Arena::new();
        let root = arena.allocate(Node::new(root_state, None));
        Self { arena, root }
    }

    /// Returns the root node ID.
    pub fn root(&self) -> (res: NodeId)
        ensures
            res == self.root_of(),
    {
        self.root
    }

    /// Returns a reference to the arena.
    pub fn arena(&self) -> (res: &Arena)
        ensures
            *res == self.arena_of(),
    {
        &self.arena
    }

    /// Returns a mutable reference to the arena.
    pub fn arena_mut(&mut self) -> (res: &mut Arena)
        ensures
            *res == old(self).arena_of(),
            final(self).arena_of() == *final(res),
            final(self).root_of() == old(self).root_of(),
    {
        &mut self.arena
    }
}

} // verus!
