//! Laws relating the traversals: the recursive and the iterative family of
//! each ordering agree on every tree, and every traversal of an empty or
//! single-leaf subtree is what it should be.

use vstd::prelude::*;
use crate::node::{Node, subtree_height, subtree_size, subtree_values};
use crate::order::{pre_order_spec, in_order_spec, post_order_spec, level_order_spec, level_at,
    levels_upto, lemma_pre_order_values, lemma_in_order_values, lemma_post_order_values,
    lemma_level_order_values};

verus! {

/// For every tree, the recursive and the iterative pre-order traversal
/// produce exactly the same sequence of visited values: both are pinned to
/// `pre_order_spec` by their contracts.
pub proof fn lemma_pre_order_forms_agree<T>(
    root: Option<Box<Node<T>>>,
    recursive: Seq<T>,
    iterative: Seq<T>,
)
    requires
        recursive == pre_order_spec(root),
        iterative == pre_order_spec(root),
    ensures
        recursive == iterative,
{
}

/// For every tree, the recursive and the iterative in-order traversal
/// produce exactly the same sequence of visited values.
pub proof fn lemma_in_order_forms_agree<T>(
    root: Option<Box<Node<T>>>,
    recursive: Seq<T>,
    iterative: Seq<T>,
)
    requires
        recursive == in_order_spec(root),
        iterative == in_order_spec(root),
    ensures
        recursive == iterative,
{
}

/// For every tree, the recursive and the iterative post-order traversal
/// produce exactly the same sequence of visited values.
pub proof fn lemma_post_order_forms_agree<T>(
    root: Option<Box<Node<T>>>,
    recursive: Seq<T>,
    iterative: Seq<T>,
)
    requires
        recursive == post_order_spec(root),
        iterative == post_order_spec(root),
    ensures
        recursive == iterative,
{
}

/// Every traversal of an absent subtree visits nothing.
pub proof fn lemma_empty_traversals<T>(root: Option<Box<Node<T>>>)
    requires
        root is None,
    ensures
        pre_order_spec(root) == Seq::<T>::empty(),
        in_order_spec(root) == Seq::<T>::empty(),
        post_order_spec(root) == Seq::<T>::empty(),
        level_order_spec(root) == Seq::<T>::empty(),
{
    assert(subtree_height(root) == 0);
}

/// Every one of the traversal orders visits a single leaf holding `v`
/// exactly once, producing just `v`.
pub proof fn lemma_leaf_traversals<T>(root: Option<Box<Node<T>>>, v: T)
    requires
        root is Some,
        root->0.data == v,
        root->0.left_child is None,
        root->0.right_child is None,
    ensures
        pre_order_spec(root) == seq![v],
        in_order_spec(root) == seq![v],
        post_order_spec(root) == seq![v],
        level_order_spec(root) == seq![v],
{
    assert(pre_order_spec(root->0.left_child) =~= Seq::<T>::empty());
    assert(in_order_spec(root->0.left_child) =~= Seq::<T>::empty());
    assert(post_order_spec(root->0.left_child) =~= Seq::<T>::empty());
    assert(pre_order_spec(root) =~= seq![v]);
    assert(in_order_spec(root) =~= seq![v]);
    assert(post_order_spec(root) =~= seq![v]);
    assert(subtree_height(root->0.left_child) == 0);
    assert(subtree_height(root) == 1);
    assert(level_at(root, 0) =~= seq![v]);
    assert(levels_upto(root, 0) =~= Seq::<T>::empty());
    assert(level_order_spec(root) =~= seq![v]);
}

/// Every traversal order applies the visit action to every node reachable
/// from the slot, exactly once: each visit sequence holds exactly the
/// subtree's values, so the four orders are rearrangements of one another.
pub proof fn lemma_traversals_visit_every_node<T>(root: Option<Box<Node<T>>>)
    ensures
        pre_order_spec(root).to_multiset() == subtree_values(root),
        in_order_spec(root).to_multiset() == subtree_values(root),
        post_order_spec(root).to_multiset() == subtree_values(root),
        level_order_spec(root).to_multiset() == subtree_values(root),
        pre_order_spec(root).len() == subtree_size(root),
        in_order_spec(root).len() == subtree_size(root),
        post_order_spec(root).len() == subtree_size(root),
        level_order_spec(root).len() == subtree_size(root),
{
    lemma_pre_order_values(root);
    lemma_in_order_values(root);
    lemma_post_order_values(root);
    lemma_level_order_values(root);
}

} // verus!
