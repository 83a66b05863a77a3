use bintree::fixture::get_a_binarytree;
use bintree::node::Node;
use bintree::tree::BinaryTree;

/// An irregular tree:
///
/// ```text
///         5
///        / \
///       3   8
///        \  /
///        4 7
/// ```
fn sample_tree() -> BinaryTree<i64> {
    let left = Node::build_whole(3, None, Some(Box::new(Node::build_from_raw(4))));
    let right = Node::build_whole(8, Some(Box::new(Node::build_from_raw(7))), None);
    BinaryTree {
        root: Some(Box::new(Node::build_whole(
            5,
            Some(Box::new(left)),
            Some(Box::new(right)),
        ))),
    }
}

#[test]
fn complete_tree_pre_order() {
    let tree = get_a_binarytree();
    let expected = vec![1, 2, 4, 8, 9, 5, 10, 11, 3, 6, 12, 13, 7, 14, 15];
    assert_eq!(tree.pre_order(&tree.root), expected);
    assert_eq!(tree.pre_order_non_recursive(&tree.root), expected);
}

#[test]
fn complete_tree_in_order() {
    let tree = get_a_binarytree();
    let expected = vec![8, 4, 9, 2, 10, 5, 11, 1, 12, 6, 13, 3, 14, 7, 15];
    assert_eq!(tree.in_order(&tree.root), expected);
    assert_eq!(tree.in_order_non_recursive(&tree.root), expected);
}

#[test]
fn complete_tree_post_order() {
    let tree = get_a_binarytree();
    let expected = vec![8, 9, 4, 10, 11, 5, 2, 12, 13, 6, 14, 15, 7, 3, 1];
    assert_eq!(tree.post_order(&tree.root), expected);
    assert_eq!(tree.post_order_non_recursive(&tree.root), expected);
}

#[test]
fn complete_tree_level_order() {
    let tree = get_a_binarytree();
    let expected = vec![1, 2, 3, 4, 5, 6, 7, 8, 9, 10, 11, 12, 13, 14, 15];
    assert_eq!(tree.level_order(&tree.root), expected);
}

#[test]
fn empty_tree_visits_nothing() {
    let tree: BinaryTree<i64> = BinaryTree::new();
    assert!(tree.is_empty());
    assert_eq!(tree.pre_order(&tree.root), Vec::<i64>::new());
    assert_eq!(tree.in_order(&tree.root), Vec::<i64>::new());
    assert_eq!(tree.post_order(&tree.root), Vec::<i64>::new());
    assert_eq!(tree.pre_order_non_recursive(&tree.root), Vec::<i64>::new());
    assert_eq!(tree.in_order_non_recursive(&tree.root), Vec::<i64>::new());
    assert_eq!(tree.post_order_non_recursive(&tree.root), Vec::<i64>::new());
    assert_eq!(tree.level_order(&tree.root), Vec::<i64>::new());
}

#[test]
fn single_leaf_visits_once() {
    let tree = BinaryTree {
        root: Some(Box::new(Node::build_from_raw(42i64))),
    };
    assert!(!tree.is_empty());
    assert_eq!(tree.pre_order(&tree.root), vec![42]);
    assert_eq!(tree.in_order(&tree.root), vec![42]);
    assert_eq!(tree.post_order(&tree.root), vec![42]);
    assert_eq!(tree.pre_order_non_recursive(&tree.root), vec![42]);
    assert_eq!(tree.in_order_non_recursive(&tree.root), vec![42]);
    assert_eq!(tree.post_order_non_recursive(&tree.root), vec![42]);
    assert_eq!(tree.level_order(&tree.root), vec![42]);
}

#[test]
fn irregular_tree_expected_orders() {
    let tree = sample_tree();
    assert_eq!(tree.pre_order(&tree.root), vec![5, 3, 4, 8, 7]);
    assert_eq!(tree.in_order(&tree.root), vec![3, 4, 5, 7, 8]);
    assert_eq!(tree.post_order(&tree.root), vec![4, 3, 7, 8, 5]);
    assert_eq!(tree.level_order(&tree.root), vec![5, 3, 8, 4, 7]);
}

#[test]
fn recursive_and_iterative_agree() {
    let trees = [get_a_binarytree(), sample_tree(), BinaryTree::new()];
    for tree in &trees {
        assert_eq!(
            tree.pre_order(&tree.root),
            tree.pre_order_non_recursive(&tree.root)
        );
        assert_eq!(
            tree.in_order(&tree.root),
            tree.in_order_non_recursive(&tree.root)
        );
        assert_eq!(
            tree.post_order(&tree.root),
            tree.post_order_non_recursive(&tree.root)
        );
    }
}

#[test]
fn traversals_work_on_subtrees() {
    let tree = get_a_binarytree();
    let root = tree.root.as_ref().unwrap();
    let left_subtree = root.get_left_child();
    assert_eq!(tree.pre_order(left_subtree), vec![2, 4, 8, 9, 5, 10, 11]);
    assert_eq!(tree.level_order(left_subtree), vec![2, 4, 5, 8, 9, 10, 11]);
}

#[test]
fn leaf_construction_and_accessors() {
    let n = Node::build_from_raw(7i64);
    assert_eq!(*n.borrow_value(), 7);
    assert!(n.get_left_child().is_none());
    assert!(n.get_right_child().is_none());
    assert!(n.is_leaf());
}

#[test]
fn build_whole_wires_children() {
    let n = Node::build_whole(
        1i64,
        Some(Box::new(Node::build_from_raw(2))),
        Some(Box::new(Node::build_from_raw(3))),
    );
    assert_eq!(*n.borrow_value(), 1);
    assert_eq!(*n.get_left_child().as_ref().unwrap().borrow_value(), 2);
    assert_eq!(*n.get_right_child().as_ref().unwrap().borrow_value(), 3);
    assert!(!n.is_leaf());
}

#[test]
fn is_leaf_false_with_one_child() {
    let mut n = Node::build_from_raw(1i64);
    n.set_left_child(2);
    assert!(!n.is_leaf());
    let mut m = Node::build_from_raw(1i64);
    m.set_right_child(2);
    assert!(!m.is_leaf());
}

#[test]
fn set_left_child_attaches_a_leaf() {
    let mut n = Node::build_from_raw(1i64);
    n.set_left_child(2);
    let left = n.get_left_child().as_ref().unwrap();
    assert_eq!(*left.borrow_value(), 2);
    assert!(left.is_leaf());
    assert!(n.get_right_child().is_none());
    assert_eq!(*n.borrow_value(), 1);
}

#[test]
fn set_right_child_attaches_a_leaf() {
    let mut n = Node::build_from_raw(1i64);
    n.set_right_child(3);
    let right = n.get_right_child().as_ref().unwrap();
    assert_eq!(*right.borrow_value(), 3);
    assert!(right.is_leaf());
    assert!(n.get_left_child().is_none());
    assert_eq!(*n.borrow_value(), 1);
}

#[test]
fn set_left_child_overwrites_only_the_value() {
    // The existing left child has children of its own; they must survive.
    let old_left = Node::build_whole(
        2i64,
        Some(Box::new(Node::build_from_raw(10))),
        Some(Box::new(Node::build_from_raw(11))),
    );
    let mut n = Node::build_whole(1i64, Some(Box::new(old_left)), None);
    n.set_left_child(99);
    let left = n.get_left_child().as_ref().unwrap();
    assert_eq!(*left.borrow_value(), 99);
    assert_eq!(*left.get_left_child().as_ref().unwrap().borrow_value(), 10);
    assert_eq!(*left.get_right_child().as_ref().unwrap().borrow_value(), 11);
    assert_eq!(*n.borrow_value(), 1);
    assert!(n.get_right_child().is_none());
}

#[test]
fn set_right_child_overwrites_only_the_value() {
    let old_right = Node::build_whole(
        3i64,
        Some(Box::new(Node::build_from_raw(12))),
        Some(Box::new(Node::build_from_raw(13))),
    );
    let mut n = Node::build_whole(1i64, None, Some(Box::new(old_right)));
    n.set_right_child(77);
    let right = n.get_right_child().as_ref().unwrap();
    assert_eq!(*right.borrow_value(), 77);
    assert_eq!(*right.get_left_child().as_ref().unwrap().borrow_value(), 12);
    assert_eq!(*right.get_right_child().as_ref().unwrap().borrow_value(), 13);
    assert_eq!(*n.borrow_value(), 1);
    assert!(n.get_left_child().is_none());
}

#[test]
fn setters_change_descendant_count_as_specified() {
    // Attaching to an empty slot adds exactly one node each time.
    let mut n = Node::build_from_raw(1i64);
    n.set_left_child(2);
    n.set_right_child(3);
    let tree = BinaryTree {
        root: Some(Box::new(n)),
    };
    assert_eq!(tree.pre_order(&tree.root).len(), 3);
    // Overwriting an existing child leaves the count unchanged.
    let mut n = *tree.root.unwrap();
    n.set_left_child(20);
    n.set_right_child(30);
    let tree = BinaryTree {
        root: Some(Box::new(n)),
    };
    assert_eq!(tree.pre_order(&tree.root), vec![1, 20, 30]);
}

#[test]
fn traversals_are_rearrangements_of_the_same_values() {
    let tree = get_a_binarytree();
    let mut seqs = vec![
        tree.pre_order(&tree.root),
        tree.in_order(&tree.root),
        tree.post_order(&tree.root),
        tree.level_order(&tree.root),
    ];
    for s in &mut seqs {
        s.sort();
    }
    let expected: Vec<i64> = (1..=15).collect();
    for s in &seqs {
        assert_eq!(*s, expected);
    }
}

#[test]
fn level_order_respects_depth_order() {
    // A ragged tree: values encode their depth in the tens digit.
    let mut d2a = Node::build_from_raw(20i64);
    d2a.set_right_child(31);
    let d1a = Node::build_whole(10, Some(Box::new(d2a)), None);
    let mut d2b = Node::build_from_raw(21i64);
    d2b.set_left_child(32);
    let d1b = Node::build_whole(11, None, Some(Box::new(d2b)));
    let tree = BinaryTree {
        root: Some(Box::new(Node::build_whole(
            0,
            Some(Box::new(d1a)),
            Some(Box::new(d1b)),
        ))),
    };
    let visited = tree.level_order(&tree.root);
    assert_eq!(visited, vec![0, 10, 11, 20, 21, 31, 32]);
    // Depths never decrease along the visit order.
    let depths: Vec<i64> = visited.iter().map(|v| v / 10).collect();
    let mut sorted = depths.clone();
    sorted.sort();
    assert_eq!(depths, sorted);
}
