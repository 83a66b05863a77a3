//! The tree container and the six traversal algorithms.
//!
//! Each traversal takes a reference to a subtree slot, so it can walk the
//! whole tree or any subtree, and returns the visited values in the
//! algorithm's order. An absent subtree yields zero visits. The visit action
//! itself (such as printing) is left to the caller.

use vstd::prelude::*;
use crate::node::{Node, subtree_size};
use crate::order::{pre_order_spec, in_order_spec, post_order_spec, pending_pre_order,
    pending_pre_size, pending_in_order, pending_in_size, pending_post_order, pending_post_size,
    level_order_spec, breadth_first, root_forest, forest_of, children_of, forest_size,
    lemma_step_size, lemma_level_order_breadth_first};

verus! {

/// A thin owner of an optional root node.
pub struct BinaryTree<T> {
    pub root: Option<Box<Node<T>>>,
}

impl<T> BinaryTree<T> {
    /// Creates an empty tree.
    pub fn new() -> (t: BinaryTree<T>)
        ensures
            t.root is None,
    {
        BinaryTree { root: None }
    }

    /// True iff the root is absent.
    pub fn is_empty(&self) -> (b: bool)
        ensures
            b == (self.root is None),
    {
        self.root.is_none()
    }
}

impl<T: Copy> BinaryTree<T> {
    /// Pre-order traversal by structural recursion: visit the node, then its
    /// left subtree, then its right subtree.
    pub fn pre_order(&self, root: &Option<Box<Node<T>>>) -> (r: Vec<T>)
        ensures
            r@ == pre_order_spec(*root),
        decreases subtree_size(*root),
    {
        let mut r: Vec<T> = Vec::new();
        if let Some(node) = root {
            r.push(node.data);
            let mut left_values = self.pre_order(&node.left_child);
            r.append(&mut left_values);
            let mut right_values = self.pre_order(&node.right_child);
            r.append(&mut right_values);
        }
        proof {
            assert(r@ =~= pre_order_spec(*root));
        }
        r
    }

    /// In-order traversal by structural recursion: visit the left subtree,
    /// then the node, then its right subtree.
    pub fn in_order(&self, root: &Option<Box<Node<T>>>) -> (r: Vec<T>)
        ensures
            r@ == in_order_spec(*root),
        decreases subtree_size(*root),
    {
        let mut r: Vec<T> = Vec::new();
        if let Some(node) = root {
            let mut left_values = self.in_order(&node.left_child);
            r.append(&mut left_values);
            r.push(node.data);
            let mut right_values = self.in_order(&node.right_child);
            r.append(&mut right_values);
        }
        proof {
            assert(r@ =~= in_order_spec(*root));
        }
        r
    }

    /// Post-order traversal by structural recursion: visit the left subtree,
    /// then the right subtree, then the node.
    pub fn post_order(&self, root: &Option<Box<Node<T>>>) -> (r: Vec<T>)
        ensures
            r@ == post_order_spec(*root),
        decreases subtree_size(*root),
    {
        let mut r: Vec<T> = Vec::new();
        if let Some(node) = root {
            let mut left_values = self.post_order(&node.left_child);
            r.append(&mut left_values);
            let mut right_values = self.post_order(&node.right_child);
            r.append(&mut right_values);
            r.push(node.data);
        }
        proof {
            assert(r@ =~= post_order_spec(*root));
        }
        r
    }

    /// Pre-order traversal with an explicit stack of pending right-subtree
    /// slots instead of call-stack recursion: visit the current node, save
    /// its right child for later, descend into its left child; on a dead end
    /// resume from the most recently saved slot.
    pub fn pre_order_non_recursive(&self, root: &Option<Box<Node<T>>>) -> (r: Vec<T>)
        ensures
            r@ == pre_order_spec(*root),
    {
        let mut r: Vec<T> = Vec::new();
        let mut stack: Vec<&Option<Box<Node<T>>>> = Vec::new();
        let mut pointer: &Option<Box<Node<T>>> = root;
        loop
            invariant
                r@ + pre_order_spec(*pointer) + pending_pre_order(stack@) == pre_order_spec(
                    *root,
                ),
            ensures
                r@ == pre_order_spec(*root),
            decreases subtree_size(*pointer) + pending_pre_size(stack@), stack@.len(),
        {
            let ghost r0 = r@;
            let ghost st0 = stack@;
            let ghost p0 = *pointer;
            if let Some(node) = pointer {
                proof {
                    assert(pre_order_spec(p0) == seq![node.data] + pre_order_spec(node.left_child)
                        + pre_order_spec(node.right_child));
                }
                r.push(node.data);
                if node.right_child.is_some() {
                    stack.push(&node.right_child);
                    proof {
                        assert(stack@.drop_last() =~= st0);
                        assert(pending_pre_order(stack@) == pre_order_spec(node.right_child)
                            + pending_pre_order(st0));
                        assert(pending_pre_size(stack@) == subtree_size(node.right_child)
                            + pending_pre_size(st0));
                    }
                } else {
                    proof {
                        assert(pre_order_spec(node.right_child) =~= Seq::<T>::empty());
                    }
                }
                pointer = &node.left_child;
                proof {
                    assert(r@ + pre_order_spec(*pointer) + pending_pre_order(stack@) =~= r0
                        + pre_order_spec(p0) + pending_pre_order(st0));
                }
            } else {
                match stack.pop() {
                    Some(next) => {
                        pointer = next;
                        proof {
                            assert(pre_order_spec(p0) =~= Seq::<T>::empty());
                            assert(r@ + pre_order_spec(*pointer) + pending_pre_order(stack@) =~= r0
                                + pre_order_spec(p0) + pending_pre_order(st0));
                        }
                    },
                    None => {
                        proof {
                            assert(pre_order_spec(p0) =~= Seq::<T>::empty());
                            assert(pending_pre_order(st0) =~= Seq::<T>::empty());
                            assert(r@ =~= pre_order_spec(*root));
                        }
                        break ;
                    },
                }
            }
        }
        r
    }

    /// In-order traversal with an explicit stack of ancestors whose left
    /// subtree is still being walked: descend left pushing each node; on a
    /// dead end pop, visit the popped node, and descend into its right child.
    pub fn in_order_non_recursive(&self, root: &Option<Box<Node<T>>>) -> (r: Vec<T>)
        ensures
            r@ == in_order_spec(*root),
    {
        let mut r: Vec<T> = Vec::new();
        let mut stack: Vec<&Box<Node<T>>> = Vec::new();
        let mut pointer: &Option<Box<Node<T>>> = root;
        loop
            invariant
                r@ + in_order_spec(*pointer) + pending_in_order(stack@) == in_order_spec(*root),
            ensures
                r@ == in_order_spec(*root),
            decreases subtree_size(*pointer) + pending_in_size(stack@), subtree_size(*pointer),
        {
            let ghost r0 = r@;
            let ghost st0 = stack@;
            let ghost p0 = *pointer;
            if let Some(node) = pointer {
                proof {
                    assert(in_order_spec(p0) == in_order_spec(node.left_child) + seq![node.data]
                        + in_order_spec(node.right_child));
                }
                stack.push(node);
                pointer = &node.left_child;
                proof {
                    assert(stack@.drop_last() =~= st0);
                    assert(pending_in_order(stack@) == seq![node.data] + in_order_spec(
                        node.right_child,
                    ) + pending_in_order(st0));
                    assert(pending_in_size(stack@) == 1 + subtree_size(node.right_child)
                        + pending_in_size(st0));
                    assert(r@ + in_order_spec(*pointer) + pending_in_order(stack@) =~= r0
                        + in_order_spec(p0) + pending_in_order(st0));
                }
            } else {
                match stack.pop() {
                    Some(node) => {
                        r.push(node.data);
                        pointer = &node.right_child;
                        proof {
                            assert(in_order_spec(p0) =~= Seq::<T>::empty());
                            assert(r@ + in_order_spec(*pointer) + pending_in_order(stack@) =~= r0
                                + in_order_spec(p0) + pending_in_order(st0));
                        }
                    },
                    None => {
                        proof {
                            assert(in_order_spec(p0) =~= Seq::<T>::empty());
                            assert(pending_in_order(st0) =~= Seq::<T>::empty());
                            assert(r@ =~= in_order_spec(*root));
                        }
                        break ;
                    },
                }
            }
        }
        r
    }

    /// Post-order traversal with an explicit stack of tagged entries: descend
    /// left pushing each node untagged; on a dead end pop — an untagged entry
    /// is re-pushed tagged and its right subtree entered, a tagged one has
    /// both subtrees done and is visited. The tag defers a node's visit until
    /// its whole right subtree has been walked.
    pub fn post_order_non_recursive(&self, root: &Option<Box<Node<T>>>) -> (r: Vec<T>)
        ensures
            r@ == post_order_spec(*root),
    {
        let mut r: Vec<T> = Vec::new();
        let mut stack: Vec<(&Box<Node<T>>, bool)> = Vec::new();
        let mut pointer: &Option<Box<Node<T>>> = root;
        loop
            invariant
                r@ + post_order_spec(*pointer) + pending_post_order(stack@) == post_order_spec(
                    *root,
                ),
            ensures
                r@ == post_order_spec(*root),
            decreases 2 * subtree_size(*pointer) + pending_post_size(stack@), subtree_size(
                *pointer,
            ),
        {
            let ghost r0 = r@;
            let ghost st0 = stack@;
            let ghost p0 = *pointer;
            if let Some(node) = pointer {
                proof {
                    assert(post_order_spec(p0) == post_order_spec(node.left_child)
                        + post_order_spec(node.right_child) + seq![node.data]);
                }
                stack.push((node, false));
                pointer = &node.left_child;
                proof {
                    assert(stack@.drop_last() =~= st0);
                    assert(pending_post_order(stack@) == (post_order_spec(node.right_child)
                        + seq![node.data]) + pending_post_order(st0));
                    assert(pending_post_size(stack@) == 2 * subtree_size(node.right_child) + 2
                        + pending_post_size(st0));
                    assert(r@ + post_order_spec(*pointer) + pending_post_order(stack@) =~= r0
                        + post_order_spec(p0) + pending_post_order(st0));
                }
            } else {
                proof {
                    assert(post_order_spec(p0) =~= Seq::<T>::empty());
                }
                match stack.pop() {
                    Some(entry) => {
                        let node = entry.0;
                        if !entry.1 {
                            stack.push((node, true));
                            pointer = &node.right_child;
                            proof {
                                assert(stack@.drop_last() =~= st0.drop_last());
                                assert(pending_post_order(st0) == (post_order_spec(
                                    node.right_child,
                                ) + seq![node.data]) + pending_post_order(st0.drop_last()));
                                assert(pending_post_order(stack@) == seq![node.data]
                                    + pending_post_order(st0.drop_last()));
                                assert(r@ + post_order_spec(*pointer) + pending_post_order(stack@)
                                    =~= r0 + post_order_spec(p0) + pending_post_order(st0));
                            }
                        } else {
                            r.push(node.data);
                            proof {
                                assert(pending_post_order(st0) == seq![node.data]
                                    + pending_post_order(st0.drop_last()));
                                assert(r@ + post_order_spec(*pointer) + pending_post_order(stack@)
                                    =~= r0 + post_order_spec(p0) + pending_post_order(st0));
                            }
                        }
                    },
                    None => {
                        proof {
                            assert(pending_post_order(st0) =~= Seq::<T>::empty());
                            assert(r@ =~= post_order_spec(*root));
                        }
                        break ;
                    },
                }
            }
        }
        r
    }

    /// Level-order (breadth-first) traversal with an explicit first-in
    /// first-out queue, seeded with the root if present: dequeue the front
    /// node, visit it, enqueue its present left child and then its present
    /// right child, until the queue is drained. Visits nodes in
    /// non-decreasing depth order, left to right within each depth.
    pub fn level_order(&self, root: &Option<Box<Node<T>>>) -> (r: Vec<T>)
        ensures
            r@ == level_order_spec(*root),
    {
        let mut r: Vec<T> = Vec::new();
        let mut queue: Vec<&Box<Node<T>>> = Vec::new();
        let mut head: usize = 0;
        if let Some(node) = root {
            queue.push(node);
        }
        proof {
            assert(forest_of(queue@.skip(0)) =~= root_forest(*root));
        }
        while head < queue.len()
            invariant
                head <= queue@.len(),
                r@ + breadth_first(forest_of(queue@.skip(head as int))) == breadth_first(
                    root_forest(*root),
                ),
            decreases forest_size(forest_of(queue@.skip(head as int))),
        {
            let ghost r0 = r@;
            let ghost q0 = queue@;
            let ghost h0 = head as int;
            let ghost pend0 = forest_of(q0.skip(h0));
            let node = queue[head];
            proof {
                assert(pend0.len() == q0.len() - h0);
                assert(pend0[0] == **node);
                assert(breadth_first(pend0) == seq![pend0[0].data] + breadth_first(
                    pend0.drop_first() + children_of(pend0[0]),
                ));
                lemma_step_size(pend0);
            }
            head = head + 1;
            r.push(node.data);
            if let Some(left) = &node.left_child {
                queue.push(left);
            }
            if let Some(right) = &node.right_child {
                queue.push(right);
            }
            proof {
                assert(forest_of(queue@.skip(head as int)) =~= pend0.drop_first() + children_of(
                    pend0[0],
                ));
                assert(r@ + breadth_first(forest_of(queue@.skip(head as int))) =~= r0
                    + breadth_first(pend0));
            }
        }
        proof {
            assert(forest_of(queue@.skip(head as int)) =~= Seq::<Node<T>>::empty());
            assert(breadth_first(Seq::<Node<T>>::empty()) =~= Seq::<T>::empty());
            assert(r@ =~= breadth_first(root_forest(*root)));
            lemma_level_order_breadth_first(*root);
        }
        r
    }
}

} // verus!
