//! The demonstration tree: the complete 15-node binary tree whose values are
//! laid out so that the node holding `i` has children holding `2 * i` and
//! `2 * i + 1`, with the root holding 1.

use vstd::prelude::*;
use crate::node::{Node, subtree_height};
use crate::order::{pre_order_spec, in_order_spec, post_order_spec, level_order_spec, level_at,
    levels_upto};
use crate::tree::BinaryTree;

verus! {

/// Builds the 15-node complete binary tree with values 1 through 15 in
/// breadth-first positions: each traversal of it visits the values in the
/// order its `ensures` states.
pub fn get_a_binarytree() -> (tree: BinaryTree<i64>)
    ensures
        pre_order_spec(tree.root) == seq![
            1i64, 2i64, 4i64, 8i64, 9i64, 5i64, 10i64, 11i64,
            3i64, 6i64, 12i64, 13i64, 7i64, 14i64, 15i64,
        ],
        in_order_spec(tree.root) == seq![
            8i64, 4i64, 9i64, 2i64, 10i64, 5i64, 11i64, 1i64,
            12i64, 6i64, 13i64, 3i64, 14i64, 7i64, 15i64,
        ],
        post_order_spec(tree.root) == seq![
            8i64, 9i64, 4i64, 10i64, 11i64, 5i64, 2i64, 12i64,
            13i64, 6i64, 14i64, 15i64, 7i64, 3i64, 1i64,
        ],
        level_order_spec(tree.root) == seq![
            1i64, 2i64, 3i64, 4i64, 5i64, 6i64, 7i64, 8i64,
            9i64, 10i64, 11i64, 12i64, 13i64, 14i64, 15i64,
        ],
{
    let tree = BinaryTree {
        root: Some(Box::new(Node {
            data: 1i64,
            left_child: Some(Box::new(Node {
                data: 2i64,
                left_child: Some(Box::new(Node {
                    data: 4i64,
                    left_child: Some(Box::new(Node {
                        data: 8i64,
                        left_child: None,
                        right_child: None,
                    })),
                    right_child: Some(Box::new(Node {
                        data: 9i64,
                        left_child: None,
                        right_child: None,
                    })),
                })),
                right_child: Some(Box::new(Node {
                    data: 5i64,
                    left_child: Some(Box::new(Node {
                        data: 10i64,
                        left_child: None,
                        right_child: None,
                    })),
                    right_child: Some(Box::new(Node {
                        data: 11i64,
                        left_child: None,
                        right_child: None,
                    })),
                })),
            })),
            right_child: Some(Box::new(Node {
                data: 3i64,
                left_child: Some(Box::new(Node {
                    data: 6i64,
                    left_child: Some(Box::new(Node {
                        data: 12i64,
                        left_child: None,
                        right_child: None,
                    })),
                    right_child: Some(Box::new(Node {
                        data: 13i64,
                        left_child: None,
                        right_child: None,
                    })),
                })),
                right_child: Some(Box::new(Node {
                    data: 7i64,
                    left_child: Some(Box::new(Node {
                        data: 14i64,
                        left_child: None,
                        right_child: None,
                    })),
                    right_child: Some(Box::new(Node {
                        data: 15i64,
                        left_child: None,
                        right_child: None,
                    })),
                })),
            })),
        })),
    };
    proof {
        reveal_with_fuel(pre_order_spec, 6);
        reveal_with_fuel(in_order_spec, 6);
        reveal_with_fuel(post_order_spec, 6);
        assert(pre_order_spec(tree.root) =~= seq![
            1i64, 2i64, 4i64, 8i64, 9i64, 5i64, 10i64, 11i64,
            3i64, 6i64, 12i64, 13i64, 7i64, 14i64, 15i64,
        ]);
        assert(in_order_spec(tree.root) =~= seq![
            8i64, 4i64, 9i64, 2i64, 10i64, 5i64, 11i64, 1i64,
            12i64, 6i64, 13i64, 3i64, 14i64, 7i64, 15i64,
        ]);
        assert(post_order_spec(tree.root) =~= seq![
            8i64, 9i64, 4i64, 10i64, 11i64, 5i64, 2i64, 12i64,
            13i64, 6i64, 14i64, 15i64, 7i64, 3i64, 1i64,
        ]);
        reveal_with_fuel(subtree_height, 6);
        assert(subtree_height(tree.root) == 4);
        reveal_with_fuel(level_at, 6);
        assert(level_at(tree.root, 0) =~= seq![1i64]);
        assert(level_at(tree.root, 1) =~= seq![2i64, 3i64]);
        assert(level_at(tree.root, 2) =~= seq![4i64, 5i64, 6i64, 7i64]);
        assert(level_at(tree.root, 3) =~= seq![
            8i64, 9i64, 10i64, 11i64, 12i64, 13i64, 14i64, 15i64,
        ]);
        reveal_with_fuel(levels_upto, 6);
        assert(level_order_spec(tree.root) =~= seq![
            1i64, 2i64, 3i64, 4i64, 5i64, 6i64, 7i64, 8i64,
            9i64, 10i64, 11i64, 12i64, 13i64, 14i64, 15i64,
        ]);
    }
    tree
}

} // verus!
