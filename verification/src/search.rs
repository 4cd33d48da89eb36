//! The integer parts of the batch tree search: expanding a node with a child
//! per legal move, and the second move heuristic, which forces the search to
//! explore the second most visited move at the root once the most visited one
//! can no longer be overtaken.
use crate::arena::{lemma_sibling_chain_agree, lemma_sibling_chain_bounded, Arena};
use crate::laws::{law_add_child_prepends, law_second_move_info, ranks_children};
use crate::node::{Node, NodeId};
use crate::rules::{lemma_legal_squares_bound, legal_squares};
use crate::state::{state_applied, State};
use vstd::prelude::*;

verus! {

/// Information about best and second-best children at root.
#[derive(Debug, Clone, Copy, PartialEq, Eq, Structural)]
pub struct SecondMoveInfo {
    pub best_id: Option<NodeId>,
    pub second_id: Option<NodeId>,
    pub best_visits: u32,
    pub second_visits: u32,
}

/// The best and second-best children after looking at `children` in order,
/// starting from no child and zero visits: a child with more visits than the
/// best becomes the best (the best becomes second), a child with more visits
/// than the second (but not the best) becomes second.
pub open spec fn scan_children(children: Seq<(NodeId, u32)>) -> SecondMoveInfo
    decreases children.len(),
{
    if children.len() == 0 {
        SecondMoveInfo { best_id: None, second_id: None, best_visits: 0, second_visits: 0 }
    } else {
        let prev = scan_children(children.drop_last());
        let (id, visits) = children.last();
        if visits > prev.best_visits {
            SecondMoveInfo {
                best_id: Some(id),
                second_id: prev.best_id,
                best_visits: visits,
                second_visits: prev.best_visits,
            }
        } else if visits > prev.second_visits {
            SecondMoveInfo {
                best_id: prev.best_id,
                second_id: Some(id),
                best_visits: prev.best_visits,
                second_visits: visits,
            }
        } else {
            prev
        }
    }
}

/// The children of node `id` of `arena`, in the order the arena lists them,
/// each with its visit count.
pub open spec fn children_visits(arena: Arena, id: NodeId) -> Seq<(NodeId, u32)> {
    arena.children_of(id).map_values(|c: NodeId| (c, arena.nodes_of()[c as int].visit_count))
}

impl SecondMoveInfo {
    /// Compute best and second-best children of the root by visit count.
    pub fn from_root(arena: &Arena, root_id: NodeId) -> (res: Self)
        requires
            arena.wf(),
            root_id < arena.nodes_of().len(),
        ensures
            res == scan_children(children_visits(*arena, root_id)),
            ranks_children(children_visits(*arena, root_id), res),
    {
        proof {
            law_second_move_info(children_visits(*arena, root_id));
        }
        let mut best_id = None;
        let mut second_id = None;
        let mut best_visits = 0u32;
        let mut second_visits = 0u32;

        let children = arena.children(root_id);
        let ghost visits_seq = children_visits(*arena, root_id);
        proof {
            lemma_sibling_chain_bounded(
                arena.nodes_of(),
                arena.nodes_of()[root_id as int].first_child,
            );
        }
        let mut i: usize = 0;
        while i < children.len()
            invariant
                i <= children@.len(),
                children@ == arena.children_of(root_id),
                visits_seq == children_visits(*arena, root_id),
                visits_seq.len() == children@.len(),
                forall|k: int| 0 <= k < children@.len() ==> #[trigger] children@[k] < arena.nodes_of().len(),
                (SecondMoveInfo { best_id, second_id, best_visits, second_visits }) == scan_children(
                    visits_seq.subrange(0, i as int),
                ),
            decreases children@.len() - i,
        {
            let child_id = children[i];
            let visits = arena.get(child_id).visit_count();
            proof {
                assert(visits_seq[i as int] == (child_id, visits));
                assert(visits_seq.subrange(0, i as int + 1).drop_last() =~= visits_seq.subrange(
                    0,
                    i as int,
                ));
            }
            if visits > best_visits {
                second_id = best_id;
                second_visits = best_visits;
                best_id = Some(child_id);
                best_visits = visits;
            } else if visits > second_visits {
                second_id = Some(child_id);
                second_visits = visits;
            }
            i = i + 1;
        }
        proof {
            assert(visits_seq.subrange(0, children@.len() as int) =~= visits_seq);
        }
        Self { best_id, second_id, best_visits, second_visits }
    }

    /// If b >= b' + budget - i then force second: the best move leads by at
    /// least the budget that is left.
    pub fn should_force_second(&self, budget: usize, i: usize) -> (res: bool)
        requires
            self.second_visits + (if budget >= i {
                budget - i
            } else {
                0
            }) <= usize::MAX,
        ensures
            res == (self.best_visits >= self.second_visits + if budget >= i {
                budget - i
            } else {
                0
            }),
    {
        let remaining = budget.saturating_sub(i);
        self.best_visits as usize >= self.second_visits as usize + remaining
    }
}

/// The IDs `from + count - 1` down to `from`: children added in increasing
/// order of ID, as the arena lists them.
pub open spec fn newest_first(from: int, count: int) -> Seq<NodeId>
    decreases count,
{
    if count <= 0 {
        Seq::empty()
    } else {
        seq![(from + count - 1) as NodeId] + newest_first(from, count - 1)
    }
}

/// `node` is a fresh child of `parent` for the move on the square with index
/// `square` from `state`: it holds the state that move leads to.
pub open spec fn expanded_child(node: Node, parent: NodeId, state: State, square: int) -> bool {
    &&& node.parent == Some(parent)
    &&& node.first_child is None
    &&& node.action == Some(square as usize)
    &&& node.visit_count == 0
    &&& !node.is_expanded
    &&& state_applied(state, square as usize, node.state)
}

/// Expands a node by adding children for all legal moves of `state`, in
/// increasing order of square, and marks it expanded.
pub fn expand_node(arena: &mut Arena, node_id: NodeId, state: &State)
    requires
        old(arena).wf(),
        node_id < old(arena).nodes_of().len(),
    ensures
        final(arena).wf(),
        final(arena).nodes_of().len() == old(arena).nodes_of().len() + legal_squares(
            state.board_of(),
            state.turn_of(),
            64,
        ).len(),
        final(arena).children_of(node_id) == newest_first(
            old(arena).nodes_of().len() as int,
            legal_squares(state.board_of(), state.turn_of(), 64).len() as int,
        ) + old(arena).children_of(node_id),
        forall|k: int|
            0 <= k < legal_squares(state.board_of(), state.turn_of(), 64).len() ==> expanded_child(
                #[trigger] final(arena).nodes_of()[old(arena).nodes_of().len() + k],
                node_id,
                *state,
                legal_squares(state.board_of(), state.turn_of(), 64)[k],
            ),
        forall|i: int|
            0 <= i < old(arena).nodes_of().len() && i != node_id
                ==> #[trigger] final(arena).nodes_of()[i] == old(arena).nodes_of()[i],
        final(arena).nodes_of()[node_id as int].is_expanded,
        final(arena).nodes_of()[node_id as int].parent == old(arena).nodes_of()[node_id as int].parent,
        final(arena).nodes_of()[node_id as int].next_sibling == old(arena).nodes_of()[node_id as int].next_sibling,
        final(arena).nodes_of()[node_id as int].state == old(arena).nodes_of()[node_id as int].state,
        final(arena).nodes_of()[node_id as int].action == old(arena).nodes_of()[node_id as int].action,
        final(arena).nodes_of()[node_id as int].visit_count == old(arena).nodes_of()[node_id as int].visit_count,
{
    let actions = state.legal_actions();
    let ghost legal = legal_squares(state.board_of(), state.turn_of(), 64);
    let ghost n0 = arena.nodes_of();
    let ghost len0 = n0.len() as int;
    let ghost old_children = arena.children_of(node_id);
    proof {
        lemma_legal_squares_bound(state.board_of(), state.turn_of(), 64);
        assert(newest_first(len0, 0) + old_children =~= old_children);
    }
    let mut k: usize = 0;
    while k < actions.len()
        invariant
            k <= actions@.len(),
            actions@.len() == legal.len(),
            forall|j: int| 0 <= j < actions@.len() ==> #[trigger] actions@[j] as int == legal[j],
            forall|j: int| 0 <= j < legal.len() ==> 0 <= #[trigger] legal[j] < 64,
            legal == legal_squares(state.board_of(), state.turn_of(), 64),
            arena.wf(),
            node_id < len0,
            len0 == n0.len(),
            arena.nodes_of().len() == len0 + k,
            arena.children_of(node_id) == newest_first(len0, k as int) + old_children,
            forall|j: int|
                0 <= j < k ==> expanded_child(
                    #[trigger] arena.nodes_of()[len0 + j],
                    node_id,
                    *state,
                    legal[j],
                ),
            forall|i: int| 0 <= i < len0 && i != node_id ==> #[trigger] arena.nodes_of()[i] == n0[i],
            arena.nodes_of()[node_id as int].parent == n0[node_id as int].parent,
            arena.nodes_of()[node_id as int].next_sibling == n0[node_id as int].next_sibling,
            arena.nodes_of()[node_id as int].state == n0[node_id as int].state,
            arena.nodes_of()[node_id as int].action == n0[node_id as int].action,
            arena.nodes_of()[node_id as int].visit_count == n0[node_id as int].visit_count,
            arena.nodes_of()[node_id as int].is_expanded == n0[node_id as int].is_expanded,
        decreases actions@.len() - k,
    {
        let action = actions[k];
        proof {
            assert(action as int == legal[k as int]);
        }
        let next_state = state.apply(action);
        let child = Node::new(next_state, Some(action));
        let ghost before = *arena;
        let child_id = arena.add_child(node_id, child);
        proof {
            law_add_child_prepends(before, *arena, node_id, child, child_id);
            assert(newest_first(len0, k as int + 1) + old_children =~= seq![child_id] + (newest_first(
                len0,
                k as int,
            ) + old_children));
            assert forall|j: int| 0 <= j < k + 1 implies expanded_child(
                #[trigger] arena.nodes_of()[len0 + j],
                node_id,
                *state,
                legal[j],
            ) by {
                if j < k {
                    assert(arena.nodes_of()[len0 + j] == before.nodes_of()[len0 + j]);
                }
            }
        }
        k = k + 1;
    }
    let ghost before = *arena;
    let node = arena.get_mut(node_id);
    node.set_expanded(true);
    proof {
        let n1 = before.nodes_of();
        let n2 = arena.nodes_of();
        assert forall|i: int| 0 <= i < n1.len() implies #[trigger] n2[i].next_sibling == n1[i].next_sibling by {}
        assert forall|i: int| 0 <= i < n2.len() implies crate::arena::links_ok(#[trigger] n2[i], i, n2.len() as int) by {
            assert(crate::arena::links_ok(n1[i], i, n1.len() as int));
        }
        lemma_sibling_chain_agree(n2, n1, n1[node_id as int].first_child, n1.len() as int);
    }
}

} // verus!
