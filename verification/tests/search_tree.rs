use reversi::arena::Arena;
use reversi::node::Node;
use reversi::state::State;
use reversi::tree::Tree;
use reversi::{Bitboard, DiskColor};

fn default_state() -> State {
    State::new(Bitboard::default(), DiskColor::Dark)
}

#[test]
fn test_arena_new() {
    let arena = Arena::new();
    assert_eq!(arena.len(), 0);
}

#[test]
fn test_allocate_and_get() {
    let mut arena = Arena::new();
    let node = Node::new(default_state(), None);
    let id = arena.allocate(node);

    assert_eq!(id, 0);
    assert_eq!(arena.len(), 1);
    assert_eq!(arena.get(id).state(), &default_state());
}

#[test]
fn test_add_child() {
    let mut arena = Arena::new();
    let parent_id = arena.allocate(Node::new(default_state(), None));
    let child_id = arena.add_child(parent_id, Node::new(default_state(), Some(0)));

    assert_eq!(arena.get(child_id).parent, Some(parent_id));
    assert_eq!(arena.get(parent_id).first_child, Some(child_id));
}

#[test]
fn test_children_iterator() {
    let mut arena = Arena::new();
    let parent_id = arena.allocate(Node::new(default_state(), None));

    let child1_id = arena.add_child(parent_id, Node::new(default_state(), Some(0)));
    let child2_id = arena.add_child(parent_id, Node::new(default_state(), Some(1)));
    let child3_id = arena.add_child(parent_id, Node::new(default_state(), Some(2)));

    let children: Vec<_> = arena.children(parent_id);
    // Children are added in reverse order (prepend)
    assert_eq!(children, vec![child3_id, child2_id, child1_id]);
}

#[test]
fn children_of_other_nodes_are_kept() {
    let mut arena = Arena::new();
    let root = arena.allocate(Node::new(default_state(), None));
    let a = arena.add_child(root, Node::new(default_state(), Some(0)));
    let a1 = arena.add_child(a, Node::new(default_state(), Some(1)));
    let b = arena.add_child(root, Node::new(default_state(), Some(2)));
    assert_eq!(arena.children(root), vec![b, a]);
    assert_eq!(arena.children(a), vec![a1]);
    assert!(arena.children(b).is_empty());
    assert_eq!(arena.get(a).next_sibling, None);
    assert_eq!(arena.get(b).next_sibling, Some(a));
    assert_eq!(arena.get(a1).parent, Some(a));
}

#[test]
fn node_test_new() {
    let node = Node::new(default_state(), None);
    assert!(node.parent.is_none());
    assert!(node.first_child.is_none());
    assert!(node.next_sibling.is_none());
    assert_eq!(node.visit_count(), 0);
}

#[test]
fn test_is_leaf() {
    let node = Node::new(default_state(), None);
    assert!(node.is_leaf());
}

#[test]
fn node_counts_visits_and_expansion() {
    let mut node = Node::new(default_state(), Some(19));
    node.increment_visit_count();
    node.increment_visit_count();
    assert_eq!(node.visit_count(), 2);
    assert!(!node.is_expanded());
    node.set_expanded(true);
    assert!(node.is_expanded());
    assert_eq!(node.action(), Some(19));
    assert_eq!(node.visit_count(), 2);
}

#[test]
fn tree_test_new() {
    let tree = Tree::new(default_state());
    assert_eq!(tree.root(), 0);
    assert_eq!(tree.arena().len(), 1);
}

#[test]
fn expanding_a_node_adds_a_child_per_legal_move() {
    let mut arena = Arena::new();
    let root = arena.allocate(Node::new(default_state(), None));
    reversi::search::expand_node(&mut arena, root, &default_state());
    assert!(arena.get(root).is_expanded());
    assert_eq!(arena.len(), 5);
    let children = arena.children(root);
    assert_eq!(children, vec![4, 3, 2, 1]);
    let actions: Vec<Option<usize>> = children.iter().map(|&c| arena.get(c).action()).collect();
    assert_eq!(actions, vec![Some(44), Some(37), Some(26), Some(19)]);
    for &c in &children {
        assert_eq!(arena.get(c).parent, Some(root));
        assert_eq!(arena.get(c).state().turn(), DiskColor::Light);
    }
}
