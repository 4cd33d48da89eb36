//! Arena allocator for the nodes of the search tree.
//!
//! All nodes are stored contiguously in a single `Vec<Node>`, with
//! parent/child relationships represented as indices (`NodeId`).
use crate::node::{relinked, Node, NodeId};
use vstd::prelude::*;

verus! {

/// The links of the node at index `i` of an arena of `len` nodes stay inside
/// the arena, and its next sibling was allocated before it.
pub open spec fn links_ok(node: Node, i: int, len: int) -> bool {
    &&& (node.first_child matches Some(j) ==> j < len)
    &&& (node.next_sibling matches Some(j) ==> j < i)
}

/// Walking the sibling links of `nodes` from `start` as long as they lead to
/// a node allocated earlier: the nodes met, in order.
pub open spec fn sibling_chain(nodes: Seq<Node>, start: Option<NodeId>) -> Seq<NodeId>
    decreases
            (match start {
                Some(i) => i as int + 1,
                None => 0,
            }),
{
    match start {
        None => Seq::empty(),
        Some(i) => if i >= nodes.len() {
            Seq::empty()
        } else {
            seq![i] + match nodes[i as int].next_sibling {
                Some(j) => if j < i {
                    sibling_chain(nodes, Some(j))
                } else {
                    Seq::empty()
                },
                None => Seq::empty(),
            }
        },
    }
}

/// Every node met along sibling links is a node of the arena.
pub proof fn lemma_sibling_chain_bounded(nodes: Seq<Node>, start: Option<NodeId>)
    ensures
        forall|k: int|
            0 <= k < sibling_chain(nodes, start).len() ==> #[trigger] sibling_chain(nodes, start)[k]
                < nodes.len(),
    decreases
            (match start {
                Some(i) => i as int + 1,
                None => 0,
            }),
{
    if let Some(i) = start {
        if i < nodes.len() {
            let rest = match nodes[i as int].next_sibling {
                Some(j) => if j < i {
                    sibling_chain(nodes, Some(j))
                } else {
                    Seq::empty()
                },
                None => Seq::empty(),
            };
            if let Some(j) = nodes[i as int].next_sibling {
                if j < i {
                    lemma_sibling_chain_bounded(nodes, Some(j));
                }
            }
            assert(sibling_chain(nodes, start) == seq![i] + rest);
            assert forall|k: int| 0 <= k < sibling_chain(nodes, start).len() implies #[trigger] sibling_chain(
                nodes,
                start,
            )[k] < nodes.len() by {
                if k > 0 {
                    assert(sibling_chain(nodes, start)[k] == rest[k - 1]);
                }
            }
        }
    }
}

/// Sibling walks that only meet nodes below `bound` agree on two node lists
/// whose nodes below `bound` have the same sibling links.
pub proof fn lemma_sibling_chain_agree(
    nodes1: Seq<Node>,
    nodes2: Seq<Node>,
    start: Option<NodeId>,
    bound: int,
)
    requires
        bound <= nodes1.len(),
        bound <= nodes2.len(),
        forall|i: int| 0 <= i < bound ==> #[trigger] nodes1[i].next_sibling == nodes2[i].next_sibling,
        start matches Some(i) ==> i < bound,
    ensures
        sibling_chain(nodes1, start) == sibling_chain(nodes2, start),
    decreases
            (match start {
                Some(i) => i as int + 1,
                None => 0,
            }),
{
    if let Some(i) = start {
        assert(nodes1[i as int].next_sibling == nodes2[i as int].next_sibling);
        if let Some(j) = nodes1[i as int].next_sibling {
            if j < i {
                lemma_sibling_chain_agree(nodes1, nodes2, Some(j), bound);
            }
        }
    }
}

/// `after` is `before` once `child` has been added as a child of node
/// `parent_id` under index `child_id`: the child is allocated at the end,
/// linked to its parent and to the parent's previous first child, and
/// becomes the parent's first child; every other node is unchanged.
pub open spec fn child_added(
    before: Arena,
    after: Arena,
    parent_id: NodeId,
    child: Node,
    child_id: NodeId,
) -> bool {
    let old_nodes = before.nodes_of();
    let new_nodes = after.nodes_of();
    &&& child_id == old_nodes.len()
    &&& new_nodes.len() == child_id + 1
    &&& forall|i: int|
        0 <= i < child_id && i != parent_id ==> #[trigger] new_nodes[i] == old_nodes[i]
    &&& relinked(
        old_nodes[parent_id as int],
        new_nodes[parent_id as int],
        old_nodes[parent_id as int].parent,
        Some(child_id),
        old_nodes[parent_id as int].next_sibling,
    )
    &&& relinked(
        child,
        new_nodes[child_id as int],
        Some(parent_id),
        child.first_child,
        old_nodes[parent_id as int].first_child,
    )
}

/// Arena allocator for the nodes of the search tree.
#[derive(Clone)]
pub struct Arena {
    nodes: Vec<Node>,
}

impl Arena {
    /// The nodes of this arena, by index.
    pub closed spec fn nodes_of(self) -> Seq<Node> {
        self.nodes@
    }

    /// Every link of the arena stays inside it, and sibling links lead to
    /// nodes allocated earlier.
    pub open spec fn wf(self) -> bool {
        forall|i: int|
            0 <= i < self.nodes_of().len() ==> links_ok(
                #[trigger] self.nodes_of()[i],
                i,
                self.nodes_of().len() as int,
            )
    }

    /// The children of node `id`, from its first child along the sibling links.
    pub open spec fn children_of(self, id: NodeId) -> Seq<NodeId> {
        sibling_chain(self.nodes_of(), self.nodes_of()[id as int].first_child)
    }

    /// Creates a new empty [`Arena`].
    pub fn new() -> (res: Self)
        ensures
            res.nodes_of() == Seq::<Node>::empty(),
            res.wf(),
    {
        Self { nodes: Vec::new() }
    }

    /// Allocates a new node and returns its ID.
    pub fn allocate(&mut self, node: Node) -> (id: NodeId)
        ensures
            id == old(self).nodes_of().len(),
            final(self).nodes_of() == old(self).nodes_of().push(node),
            old(self).wf() && links_ok(node, id as int, id + 1) ==> final(self).wf(),
    {
        let id = self.nodes.len();
        self.nodes.push(node);
        id
    }

    /// Returns a reference to the node at the given ID.
    pub fn get(&self, id: NodeId) -> (res: &Node)
        requires
            id < self.nodes_of().len(),
        ensures
            *res == self.nodes_of()[id as int],
    {
        &self.nodes[id]
    }

    /// Returns a mutable reference to the node at the given ID.
    pub fn get_mut(&mut self, id: NodeId) -> (res: &mut Node)
        requires
            id < old(self).nodes_of().len(),
        ensures
            *res == old(self).nodes_of()[id as int],
            final(self).nodes_of() == old(self).nodes_of().update(id as int, *final(res)),
    {
        &mut self.nodes[id]
    }

    /// Adds a child node to a parent and returns the child's ID.
    ///
    /// The child is linked as the first child of the parent, with previous
    /// first_child becoming the new child's next_sibling.
    pub fn add_child(&mut self, parent_id: NodeId, child: Node) -> (child_id: NodeId)
        requires
            parent_id < old(self).nodes_of().len(),
        ensures
            child_added(*old(self), *final(self), parent_id, child, child_id),
            old(self).wf() && (child.first_child matches Some(j) ==> j <= child_id)
                ==> final(self).wf(),
    {
        let mut child = child;
        child.parent = Some(parent_id);
        child.next_sibling = self.nodes[parent_id].first_child;

        let child_id = self.allocate(child);
        let mut parent = self.nodes[parent_id];
        parent.first_child = Some(child_id);
        self.nodes.set(parent_id, parent);
        child_id
    }

    /// Returns the children of a node, from its most recently added child.
    pub fn children(&self, id: NodeId) -> (res: Vec<NodeId>)
        requires
            self.wf(),
            id < self.nodes_of().len(),
        ensures
            res@ == self.children_of(id),
    {
        let mut res: Vec<NodeId> = Vec::new();
        let mut current = self.nodes[id].first_child;
        let ghost nodes = self.nodes_of();
        while current.is_some()
            invariant
                self.wf(),
                nodes == self.nodes_of(),
                current matches Some(j) ==> j < nodes.len(),
                res@ + sibling_chain(nodes, current) == sibling_chain(
                    nodes,
                    nodes[id as int].first_child,
                ),
            decreases
                    (match current {
                        Some(i) => i as int + 1,
                        None => 0,
                    }),
        {
            let c = current.unwrap();
            proof {
                assert(links_ok(nodes[c as int], c as int, nodes.len() as int));
                assert(res@.push(c) + sibling_chain(nodes, nodes[c as int].next_sibling) =~= res@
                    + sibling_chain(nodes, current));
            }
            res.push(c);
            current = self.nodes[c].next_sibling;
        }
        proof {
            assert(res@ + sibling_chain(nodes, current) =~= res@);
        }
        res
    }

    /// Returns the number of nodes in the arena.
    pub fn len(&self) -> (res: usize)
        ensures
            res == self.nodes_of().len(),
    {
        self.nodes.len()
    }
}

impl Default for Arena {
    fn default() -> (res: Self)
        ensures
            res.nodes_of() == Seq::<Node>::empty(),
    {
        Self::new()
    }
}

} // verus!
