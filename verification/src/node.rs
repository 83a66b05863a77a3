//! The tree vertex: a value with optional, exclusively owned children.

use vstd::prelude::*;
use vstd::multiset::Multiset;

verus! {

/// A single binary tree vertex. Each child slot either holds the root of an
/// exclusively owned subtree or is absent; the ownership discipline makes the
/// node graph a strict, acyclic tree.
pub struct Node<T> {
    pub data: T,
    pub left_child: Option<Box<Node<T>>>,
    pub right_child: Option<Box<Node<T>>>,
}

/// Number of nodes in the subtree rooted at `root`; zero for an absent subtree.
pub open spec fn subtree_size<T>(root: Option<Box<Node<T>>>) -> nat
    decreases root,
{
    match root {
        None => 0,
        Some(node) => 1 + subtree_size(node.left_child) + subtree_size(node.right_child),
    }
}

/// Number of nodes in the tree rooted at the (present) node `n` itself.
pub open spec fn node_size<T>(n: Node<T>) -> nat {
    1 + subtree_size(n.left_child) + subtree_size(n.right_child)
}

/// The values held in the subtree rooted at `root`, one per node.
pub open spec fn subtree_values<T>(root: Option<Box<Node<T>>>) -> Multiset<T>
    decreases root,
{
    match root {
        None => Multiset::empty(),
        Some(node) => subtree_values(node.left_child).add(
            subtree_values(node.right_child),
        ).insert(node.data),
    }
}

/// The values held in the tree rooted at the (present) node `n` itself.
pub open spec fn node_values<T>(n: Node<T>) -> Multiset<T> {
    subtree_values(n.left_child).add(subtree_values(n.right_child)).insert(n.data)
}

/// Height of a subtree: zero for an absent subtree, one for a single leaf.
pub open spec fn subtree_height<T>(root: Option<Box<Node<T>>>) -> nat
    decreases root,
{
    match root {
        None => 0,
        Some(node) => 1 + if subtree_height(node.left_child) >= subtree_height(node.right_child) {
            subtree_height(node.left_child)
        } else {
            subtree_height(node.right_child)
        },
    }
}

impl<T> Node<T> {
    /// Constructs a node with no children.
    pub fn build_from_raw(data: T) -> (n: Node<T>)
        ensures
            n.data == data,
            n.left_child is None,
            n.right_child is None,
    {
        Node { data, left_child: None, right_child: None }
    }

    /// Constructs a node with explicit (possibly absent) children.
    pub fn build_whole(
        data: T,
        left_child: Option<Box<Node<T>>>,
        right_child: Option<Box<Node<T>>>,
    ) -> (n: Node<T>)
        ensures
            n.data == data,
            n.left_child == left_child,
            n.right_child == right_child,
    {
        Node { data, left_child, right_child }
    }

    /// Read-only access to the payload.
    pub fn borrow_value(&self) -> (v: &T)
        ensures
            *v == self.data,
    {
        &self.data
    }

    /// Read-only access to the left child slot.
    pub fn get_left_child(&self) -> (c: &Option<Box<Node<T>>>)
        ensures
            *c == self.left_child,
    {
        &self.left_child
    }

    /// Read-only access to the right child slot.
    pub fn get_right_child(&self) -> (c: &Option<Box<Node<T>>>)
        ensures
            *c == self.right_child,
    {
        &self.right_child
    }

    /// If a left child exists, overwrites only its value, leaving the child's
    /// own subtrees untouched; otherwise attaches a new leaf child holding
    /// `data`. Never detaches or replaces a child subtree wholesale.
    pub fn set_left_child(&mut self, data: T)
        ensures
            final(self).data == old(self).data,
            final(self).right_child == old(self).right_child,
            final(self).left_child is Some,
            final(self).left_child->0.data == data,
            old(self).left_child is Some ==> {
                &&& final(self).left_child->0.left_child == old(self).left_child->0.left_child
                &&& final(self).left_child->0.right_child == old(self).left_child->0.right_child
            },
            old(self).left_child is None ==> {
                &&& final(self).left_child->0.left_child is None
                &&& final(self).left_child->0.right_child is None
            },
            old(self).left_child is Some ==> node_size(*final(self)) == node_size(*old(self)),
            old(self).left_child is None ==> node_size(*final(self)) == node_size(*old(self)) + 1,
    {
        match self.left_child.take() {
            Some(mut child) => {
                child.data = data;
                self.left_child = Some(child);
            },
            None => {
                self.left_child = Some(Box::new(Node::build_from_raw(data)));
            },
        }
    }

    /// If a right child exists, overwrites only its value, leaving the child's
    /// own subtrees untouched; otherwise attaches a new leaf child holding
    /// `data`. Never detaches or replaces a child subtree wholesale.
    pub fn set_right_child(&mut self, data: T)
        ensures
            final(self).data == old(self).data,
            final(self).left_child == old(self).left_child,
            final(self).right_child is Some,
            final(self).right_child->0.data == data,
            old(self).right_child is Some ==> {
                &&& final(self).right_child->0.left_child == old(self).right_child->0.left_child
                &&& final(self).right_child->0.right_child == old(self).right_child->0.right_child
            },
            old(self).right_child is None ==> {
                &&& final(self).right_child->0.left_child is None
                &&& final(self).right_child->0.right_child is None
            },
            old(self).right_child is Some ==> node_size(*final(self)) == node_size(*old(self)),
            old(self).right_child is None ==> node_size(*final(self)) == node_size(*old(self)) + 1,
    {
        match self.right_child.take() {
            Some(mut child) => {
                child.data = data;
                self.right_child = Some(child);
            },
            None => {
                self.right_child = Some(Box::new(Node::build_from_raw(data)));
            },
        }
    }

    /// True iff both child slots are absent.
    pub fn is_leaf(&self) -> (b: bool)
        ensures
            b == (self.left_child is None && self.right_child is None),
    {
        self.left_child.is_none() && self.right_child.is_none()
    }
}

} // verus!
