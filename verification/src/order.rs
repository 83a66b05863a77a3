//! Specifications of the visiting orders: the sequence of values each
//! traversal family must produce, stated recursively over the tree shape,
//! together with the spec-level bookkeeping for the explicit stacks and the
//! breadth-first queue of the iterative forms.

use vstd::prelude::*;
use vstd::multiset::Multiset;
use vstd::seq_lib::lemma_multiset_commutative;
use crate::node::{Node, node_size, node_values, subtree_size, subtree_height, subtree_values};

verus! {

/// Values visited by a pre-order walk (visit self, then left, then right).
pub open spec fn pre_order_spec<T>(root: Option<Box<Node<T>>>) -> Seq<T>
    decreases root,
{
    match root {
        None => Seq::empty(),
        Some(node) => seq![node.data] + pre_order_spec(node.left_child) + pre_order_spec(
            node.right_child,
        ),
    }
}

/// Values visited by an in-order walk (left, then self, then right).
pub open spec fn in_order_spec<T>(root: Option<Box<Node<T>>>) -> Seq<T>
    decreases root,
{
    match root {
        None => Seq::empty(),
        Some(node) => in_order_spec(node.left_child) + seq![node.data] + in_order_spec(
            node.right_child,
        ),
    }
}

/// Values visited by a post-order walk (left, then right, then self).
pub open spec fn post_order_spec<T>(root: Option<Box<Node<T>>>) -> Seq<T>
    decreases root,
{
    match root {
        None => Seq::empty(),
        Some(node) => post_order_spec(node.left_child) + post_order_spec(node.right_child)
            + seq![node.data],
    }
}

/// Values of the nodes at depth exactly `d` below `root`, left to right
/// (the root itself is at depth zero).
pub open spec fn level_at<T>(root: Option<Box<Node<T>>>, d: nat) -> Seq<T>
    decreases root,
{
    match root {
        None => Seq::empty(),
        Some(node) => if d == 0 {
            seq![node.data]
        } else {
            level_at(node.left_child, (d - 1) as nat) + level_at(node.right_child, (d - 1) as nat)
        },
    }
}

/// The levels of `root` shallower than depth `d`, concatenated in order of
/// increasing depth.
pub open spec fn levels_upto<T>(root: Option<Box<Node<T>>>, d: nat) -> Seq<T>
    decreases d,
{
    if d == 0 {
        Seq::empty()
    } else {
        levels_upto(root, (d - 1) as nat) + level_at(root, (d - 1) as nat)
    }
}

/// Values visited by a level-order (breadth-first) walk: all of depth 0,
/// then all of depth 1, and so on, each depth left to right.
pub open spec fn level_order_spec<T>(root: Option<Box<Node<T>>>) -> Seq<T> {
    levels_upto(root, subtree_height(root))
}

/// Values still owed by an explicit pre-order stack of pending subtree
/// slots, top of the stack first.
pub open spec fn pending_pre_order<'a, T>(s: Seq<&'a Option<Box<Node<T>>>>) -> Seq<T>
    decreases s.len(),
{
    if s.len() == 0 {
        Seq::empty()
    } else {
        pre_order_spec(*s.last()) + pending_pre_order(s.drop_last())
    }
}

/// Total number of nodes in the subtrees a pre-order stack still owes.
pub open spec fn pending_pre_size<'a, T>(s: Seq<&'a Option<Box<Node<T>>>>) -> nat
    decreases s.len(),
{
    if s.len() == 0 {
        0
    } else {
        subtree_size(*s.last()) + pending_pre_size(s.drop_last())
    }
}

/// Values still owed by an explicit in-order stack of ancestors whose left
/// subtree is done: for each entry, top first, its own value and then its
/// right subtree in order.
pub open spec fn pending_in_order<'a, T>(s: Seq<&'a Box<Node<T>>>) -> Seq<T>
    decreases s.len(),
{
    if s.len() == 0 {
        Seq::empty()
    } else {
        seq![s.last().data] + in_order_spec(s.last().right_child) + pending_in_order(s.drop_last())
    }
}

/// Number of visits an in-order stack still owes.
pub open spec fn pending_in_size<'a, T>(s: Seq<&'a Box<Node<T>>>) -> nat
    decreases s.len(),
{
    if s.len() == 0 {
        0
    } else {
        1 + subtree_size(s.last().right_child) + pending_in_size(s.drop_last())
    }
}

/// Values still owed by an explicit post-order stack of tagged entries, top
/// first. An entry tagged `false` still owes its right subtree and then its
/// own value; one tagged `true` owes only its own value.
pub open spec fn pending_post_order<'a, T>(s: Seq<(&'a Box<Node<T>>, bool)>) -> Seq<T>
    decreases s.len(),
{
    if s.len() == 0 {
        Seq::empty()
    } else {
        (if !s.last().1 {
            post_order_spec(s.last().0.right_child) + seq![s.last().0.data]
        } else {
            seq![s.last().0.data]
        }) + pending_post_order(s.drop_last())
    }
}

/// Termination weight of a post-order stack: two steps per node still to be
/// walked below an entry, plus the entry's own remaining steps.
pub open spec fn pending_post_size<'a, T>(s: Seq<(&'a Box<Node<T>>, bool)>) -> nat
    decreases s.len(),
{
    if s.len() == 0 {
        0
    } else {
        (if !s.last().1 {
            2 * subtree_size(s.last().0.right_child) + 2
        } else {
            1
        }) + pending_post_size(s.drop_last())
    }
}

/// The forest a subtree slot contributes to a breadth-first queue: empty for
/// an absent subtree, the root node alone otherwise.
pub open spec fn root_forest<T>(root: Option<Box<Node<T>>>) -> Seq<Node<T>> {
    match root {
        None => Seq::empty(),
        Some(node) => seq![*node],
    }
}

/// The present children of `n`, left before right.
pub open spec fn children_of<T>(n: Node<T>) -> Seq<Node<T>> {
    root_forest(n.left_child) + root_forest(n.right_child)
}

/// Total number of nodes in all trees of the forest.
pub open spec fn forest_size<T>(q: Seq<Node<T>>) -> nat
    decreases q.len(),
{
    if q.len() == 0 {
        0
    } else {
        node_size(q[0]) + forest_size(q.drop_first())
    }
}

/// The root values of the forest, in forest order.
pub open spec fn forest_values<T>(q: Seq<Node<T>>) -> Seq<T> {
    q.map_values(|n: Node<T>| n.data)
}

/// All present children of all trees of the forest, in forest order.
pub open spec fn forest_children<T>(q: Seq<Node<T>>) -> Seq<Node<T>>
    decreases q.len(),
{
    if q.len() == 0 {
        Seq::empty()
    } else {
        children_of(q[0]) + forest_children(q.drop_first())
    }
}

/// The sequence a breadth-first queue yields: visit the front tree's root,
/// enqueue its present children at the back, repeat until the queue is empty.
pub open spec fn breadth_first<T>(q: Seq<Node<T>>) -> Seq<T>
    decreases forest_size(q),
{
    if q.len() == 0 {
        Seq::empty()
    } else {
        proof {
            lemma_step_size(q);
        }
        seq![q[0].data] + breadth_first(q.drop_first() + children_of(q[0]))
    }
}

/// The forest a breadth-first queue of borrowed nodes stands for.
pub open spec fn forest_of<'a, T>(q: Seq<&'a Box<Node<T>>>) -> Seq<Node<T>> {
    q.map_values(|b: &Box<Node<T>>| **b)
}

/// Forest size distributes over concatenation.
pub proof fn lemma_forest_size_concat<T>(a: Seq<Node<T>>, b: Seq<Node<T>>)
    ensures
        forest_size(a + b) == forest_size(a) + forest_size(b),
    decreases a.len(),
{
    if a.len() == 0 {
        assert(a + b =~= b);
    } else {
        assert((a + b).drop_first() =~= a.drop_first() + b);
        lemma_forest_size_concat(a.drop_first(), b);
    }
}

/// A node's children form a forest one node smaller than the node's own tree.
pub proof fn lemma_children_size<T>(n: Node<T>)
    ensures
        forest_size(children_of(n)) == node_size(n) - 1,
{
    lemma_forest_size_concat(root_forest(n.left_child), root_forest(n.right_child));
    lemma_root_forest_size(n.left_child);
    lemma_root_forest_size(n.right_child);
}

/// A subtree slot's forest holds exactly the nodes of the subtree.
pub proof fn lemma_root_forest_size<T>(root: Option<Box<Node<T>>>)
    ensures
        forest_size(root_forest(root)) == subtree_size(root),
{
    match root {
        None => {},
        Some(node) => {
            assert(root_forest(root).drop_first() =~= Seq::<Node<T>>::empty());
            assert(forest_size(Seq::<Node<T>>::empty()) == 0);
            assert(forest_size(root_forest(root)) == node_size(*node));
        },
    }
}

/// One breadth-first step consumes exactly one node of the forest.
pub proof fn lemma_step_size<T>(q: Seq<Node<T>>)
    requires
        q.len() > 0,
    ensures
        forest_size(q.drop_first() + children_of(q[0])) == forest_size(q) - 1,
{
    lemma_forest_size_concat(q.drop_first(), children_of(q[0]));
    lemma_children_size(q[0]);
}

/// Values of a (present) node `n` at depth `d` below `n` itself.
pub open spec fn node_level<T>(n: Node<T>, d: nat) -> Seq<T> {
    if d == 0 {
        seq![n.data]
    } else {
        level_at(n.left_child, (d - 1) as nat) + level_at(n.right_child, (d - 1) as nat)
    }
}

/// Values at depth `d` of the forest, in forest order.
pub open spec fn forest_level<T>(q: Seq<Node<T>>, d: nat) -> Seq<T>
    decreases q.len(),
{
    if q.len() == 0 {
        Seq::empty()
    } else {
        node_level(q[0], d) + forest_level(q.drop_first(), d)
    }
}

/// Height of a (present) node's own tree.
pub open spec fn node_height<T>(n: Node<T>) -> nat {
    1 + if subtree_height(n.left_child) >= subtree_height(n.right_child) {
        subtree_height(n.left_child)
    } else {
        subtree_height(n.right_child)
    }
}

/// Height of the tallest tree of the forest; zero for an empty forest.
pub open spec fn forest_height<T>(q: Seq<Node<T>>) -> nat
    decreases q.len(),
{
    if q.len() == 0 {
        0
    } else if node_height(q[0]) >= forest_height(q.drop_first()) {
        node_height(q[0])
    } else {
        forest_height(q.drop_first())
    }
}

/// The levels of the forest shallower than depth `d`, concatenated in order
/// of increasing depth.
pub open spec fn forest_levels_upto<T>(q: Seq<Node<T>>, d: nat) -> Seq<T>
    decreases d,
{
    if d == 0 {
        Seq::empty()
    } else {
        forest_levels_upto(q, (d - 1) as nat) + forest_level(q, (d - 1) as nat)
    }
}

/// The breadth-first walk of a queue splits into the values at its front and
/// the walk of the rest with the front's children enqueued.
pub proof fn lemma_bf_unfold<T>(x: Seq<Node<T>>, y: Seq<Node<T>>)
    ensures
        breadth_first(x + y) == forest_values(x) + breadth_first(y + forest_children(x)),
    decreases x.len(),
{
    if x.len() == 0 {
        assert(x + y =~= y);
        assert(forest_children(x) =~= Seq::<Node<T>>::empty());
        assert(y + forest_children(x) =~= y);
        assert(breadth_first(x + y) =~= forest_values(x) + breadth_first(y + forest_children(x)));
    } else {
        let x0 = x[0];
        let xr = x.drop_first();
        assert((x + y).len() > 0 && (x + y)[0] == x0);
        assert((x + y).drop_first() =~= xr + y);
        assert((x + y).drop_first() + children_of(x0) =~= xr + (y + children_of(x0)));
        lemma_bf_unfold(xr, y + children_of(x0));
        assert((y + children_of(x0)) + forest_children(xr) =~= y + (children_of(x0)
            + forest_children(xr)));
        assert(forest_children(x) == children_of(x0) + forest_children(xr));
        assert(forest_values(x) =~= seq![x0.data] + forest_values(xr));
        assert(breadth_first(x + y) =~= forest_values(x) + breadth_first(y + forest_children(x)));
    }
}

/// A forest's values are its level at depth zero.
pub proof fn lemma_forest_level_zero<T>(q: Seq<Node<T>>)
    ensures
        forest_level(q, 0) == forest_values(q),
    decreases q.len(),
{
    if q.len() == 0 {
        assert(forest_level(q, 0) =~= forest_values(q));
    } else {
        lemma_forest_level_zero(q.drop_first());
        assert(forest_level(q, 0) =~= forest_values(q));
    }
}

/// A forest level distributes over concatenation of forests.
pub proof fn lemma_forest_level_concat<T>(a: Seq<Node<T>>, b: Seq<Node<T>>, d: nat)
    ensures
        forest_level(a + b, d) == forest_level(a, d) + forest_level(b, d),
    decreases a.len(),
{
    if a.len() == 0 {
        assert(a + b =~= b);
        assert(forest_level(a + b, d) =~= forest_level(a, d) + forest_level(b, d));
    } else {
        assert((a + b).len() > 0 && (a + b)[0] == a[0]);
        assert((a + b).drop_first() =~= a.drop_first() + b);
        lemma_forest_level_concat(a.drop_first(), b, d);
        assert(forest_level(a + b, d) =~= forest_level(a, d) + forest_level(b, d));
    }
}

/// The level of a subtree slot's forest is the level of the subtree.
pub proof fn lemma_level_root_forest<T>(root: Option<Box<Node<T>>>, d: nat)
    ensures
        forest_level(root_forest(root), d) == level_at(root, d),
{
    match root {
        None => {
            assert(forest_level(root_forest(root), d) =~= level_at(root, d));
        },
        Some(node) => {
            assert(root_forest(root).drop_first() =~= Seq::<Node<T>>::empty());
            assert(forest_level(Seq::<Node<T>>::empty(), d) == Seq::<T>::empty());
            assert(node_level(*node, d) == level_at(root, d));
            assert(forest_level(root_forest(root), d) =~= level_at(root, d));
        },
    }
}

/// Stepping a forest down to its children shifts every level up by one.
pub proof fn lemma_forest_level_children<T>(q: Seq<Node<T>>, d: nat)
    ensures
        forest_level(q, d + 1) == forest_level(forest_children(q), d),
    decreases q.len(),
{
    if q.len() == 0 {
        assert(forest_children(q) =~= Seq::<Node<T>>::empty());
        assert(forest_level(q, d + 1) =~= forest_level(forest_children(q), d));
    } else {
        let q0 = q[0];
        let xr = q.drop_first();
        lemma_forest_level_concat(root_forest(q0.left_child), root_forest(q0.right_child), d);
        lemma_level_root_forest(q0.left_child, d);
        lemma_level_root_forest(q0.right_child, d);
        assert(forest_level(children_of(q0), d) == level_at(q0.left_child, d) + level_at(
            q0.right_child,
            d,
        ));
        lemma_forest_level_children(xr, d);
        assert(forest_children(q) == children_of(q0) + forest_children(xr));
        lemma_forest_level_concat(children_of(q0), forest_children(xr), d);
        assert(forest_level(q, d + 1) =~= forest_level(forest_children(q), d));
    }
}

/// The height of a subtree slot's forest is the height of the subtree.
pub proof fn lemma_height_root_forest<T>(root: Option<Box<Node<T>>>)
    ensures
        forest_height(root_forest(root)) == subtree_height(root),
{
    match root {
        None => {},
        Some(node) => {
            assert(root_forest(root).drop_first() =~= Seq::<Node<T>>::empty());
            assert(forest_height(Seq::<Node<T>>::empty()) == 0);
            assert(node_height(*node) == subtree_height(root));
        },
    }
}

/// Forest height distributes over concatenation as a maximum.
pub proof fn lemma_forest_height_concat<T>(a: Seq<Node<T>>, b: Seq<Node<T>>)
    ensures
        forest_height(a + b) == if forest_height(a) >= forest_height(b) {
            forest_height(a)
        } else {
            forest_height(b)
        },
    decreases a.len(),
{
    if a.len() == 0 {
        assert(a + b =~= b);
    } else {
        assert((a + b).len() > 0 && (a + b)[0] == a[0]);
        assert((a + b).drop_first() =~= a.drop_first() + b);
        lemma_forest_height_concat(a.drop_first(), b);
    }
}

/// A nonempty forest is one level taller than the forest of its children.
pub proof fn lemma_forest_height_children<T>(q: Seq<Node<T>>)
    requires
        q.len() > 0,
    ensures
        forest_height(q) == 1 + forest_height(forest_children(q)),
    decreases q.len(),
{
    let q0 = q[0];
    let xr = q.drop_first();
    lemma_forest_height_concat(root_forest(q0.left_child), root_forest(q0.right_child));
    lemma_height_root_forest(q0.left_child);
    lemma_height_root_forest(q0.right_child);
    assert(forest_height(children_of(q0)) + 1 == node_height(q0));
    assert(forest_children(q) == children_of(q0) + forest_children(xr));
    lemma_forest_height_concat(children_of(q0), forest_children(xr));
    if xr.len() == 0 {
        assert(forest_children(xr) =~= Seq::<Node<T>>::empty());
        assert(forest_height(Seq::<Node<T>>::empty()) == 0);
    } else {
        lemma_forest_height_children(xr);
    }
}

/// Peeling the shallowest level off a bounded stack of levels.
pub proof fn lemma_forest_levels_step<T>(q: Seq<Node<T>>, d: nat)
    ensures
        forest_levels_upto(q, d + 1) == forest_level(q, 0) + forest_levels_upto(
            forest_children(q),
            d,
        ),
    decreases d,
{
    if d == 0 {
        assert(forest_levels_upto(q, 0) == Seq::<T>::empty());
        assert(forest_levels_upto(forest_children(q), 0) == Seq::<T>::empty());
        assert(forest_levels_upto(q, d + 1) =~= forest_level(q, 0) + forest_levels_upto(
            forest_children(q),
            d,
        ));
    } else {
        lemma_forest_levels_step(q, (d - 1) as nat);
        lemma_forest_level_children(q, (d - 1) as nat);
        assert(forest_levels_upto(q, d + 1) =~= forest_level(q, 0) + forest_levels_upto(
            forest_children(q),
            d,
        ));
    }
}

/// A breadth-first walk of a forest yields exactly its levels, shallowest
/// first, left to right within each level.
pub proof fn lemma_breadth_first_levels<T>(q: Seq<Node<T>>)
    ensures
        breadth_first(q) == forest_levels_upto(q, forest_height(q)),
    decreases forest_height(q),
{
    if q.len() == 0 {
        assert(breadth_first(q) =~= forest_levels_upto(q, forest_height(q)));
    } else {
        assert(forest_height(q) >= node_height(q[0]) >= 1);
        lemma_bf_unfold(q, Seq::<Node<T>>::empty());
        assert(q + Seq::<Node<T>>::empty() =~= q);
        assert(Seq::<Node<T>>::empty() + forest_children(q) =~= forest_children(q));
        lemma_forest_height_children(q);
        lemma_breadth_first_levels(forest_children(q));
        lemma_forest_levels_step(q, (forest_height(q) - 1) as nat);
        lemma_forest_level_zero(q);
        assert(breadth_first(q) =~= forest_levels_upto(q, forest_height(q)));
    }
}

/// Bounded level stacks agree between a subtree slot and its forest.
pub proof fn lemma_levels_upto_root_forest<T>(root: Option<Box<Node<T>>>, d: nat)
    ensures
        levels_upto(root, d) == forest_levels_upto(root_forest(root), d),
    decreases d,
{
    if d == 0 {
    } else {
        lemma_levels_upto_root_forest(root, (d - 1) as nat);
        lemma_level_root_forest(root, (d - 1) as nat);
        assert(levels_upto(root, d) =~= forest_levels_upto(root_forest(root), d));
    }
}

/// The breadth-first walk of the queue seeded with a subtree slot visits the
/// subtree's values strictly in order of non-decreasing depth, left to right
/// within each depth.
pub proof fn lemma_level_order_breadth_first<T>(root: Option<Box<Node<T>>>)
    ensures
        breadth_first(root_forest(root)) == level_order_spec(root),
{
    lemma_breadth_first_levels(root_forest(root));
    lemma_height_root_forest(root);
    lemma_levels_upto_root_forest(root, subtree_height(root));
}

/// The multiset of a one-value sequence.
proof fn lemma_singleton_multiset<T>(v: T)
    ensures
        seq![v].to_multiset() =~= Multiset::<T>::empty().insert(v),
{
    broadcast use vstd::seq_lib::group_to_multiset_ensures;
    broadcast use vstd::multiset::group_multiset_axioms;

    assert(seq![v] =~= Seq::<T>::empty().push(v));
    vstd::multiset::lemma_multiset_empty_len(Seq::<T>::empty().to_multiset());
}

/// A pre-order walk visits exactly the subtree's values, one per node.
pub proof fn lemma_pre_order_values<T>(root: Option<Box<Node<T>>>)
    ensures
        pre_order_spec(root).to_multiset() == subtree_values(root),
        pre_order_spec(root).len() == subtree_size(root),
    decreases root,
{
    broadcast use vstd::multiset::group_multiset_axioms;

    match root {
        None => {
            vstd::multiset::lemma_multiset_empty_len(pre_order_spec(root).to_multiset());
            broadcast use vstd::seq_lib::group_to_multiset_ensures;

        },
        Some(node) => {
            lemma_pre_order_values(node.left_child);
            lemma_pre_order_values(node.right_child);
            lemma_multiset_commutative(
                seq![node.data] + pre_order_spec(node.left_child),
                pre_order_spec(node.right_child),
            );
            lemma_multiset_commutative(seq![node.data], pre_order_spec(node.left_child));
            lemma_singleton_multiset(node.data);
            assert(pre_order_spec(root).to_multiset() =~= subtree_values(root));
        },
    }
}

/// An in-order walk visits exactly the subtree's values, one per node.
pub proof fn lemma_in_order_values<T>(root: Option<Box<Node<T>>>)
    ensures
        in_order_spec(root).to_multiset() == subtree_values(root),
        in_order_spec(root).len() == subtree_size(root),
    decreases root,
{
    broadcast use vstd::multiset::group_multiset_axioms;

    match root {
        None => {
            vstd::multiset::lemma_multiset_empty_len(in_order_spec(root).to_multiset());
            broadcast use vstd::seq_lib::group_to_multiset_ensures;

        },
        Some(node) => {
            lemma_in_order_values(node.left_child);
            lemma_in_order_values(node.right_child);
            lemma_multiset_commutative(
                in_order_spec(node.left_child) + seq![node.data],
                in_order_spec(node.right_child),
            );
            lemma_multiset_commutative(in_order_spec(node.left_child), seq![node.data]);
            lemma_singleton_multiset(node.data);
            assert(in_order_spec(root).to_multiset() =~= subtree_values(root));
        },
    }
}

/// A post-order walk visits exactly the subtree's values, one per node.
pub proof fn lemma_post_order_values<T>(root: Option<Box<Node<T>>>)
    ensures
        post_order_spec(root).to_multiset() == subtree_values(root),
        post_order_spec(root).len() == subtree_size(root),
    decreases root,
{
    broadcast use vstd::multiset::group_multiset_axioms;

    match root {
        None => {
            vstd::multiset::lemma_multiset_empty_len(post_order_spec(root).to_multiset());
            broadcast use vstd::seq_lib::group_to_multiset_ensures;

        },
        Some(node) => {
            lemma_post_order_values(node.left_child);
            lemma_post_order_values(node.right_child);
            lemma_multiset_commutative(
                post_order_spec(node.left_child) + post_order_spec(node.right_child),
                seq![node.data],
            );
            lemma_multiset_commutative(
                post_order_spec(node.left_child),
                post_order_spec(node.right_child),
            );
            lemma_singleton_multiset(node.data);
            assert(post_order_spec(root).to_multiset() =~= subtree_values(root));
        },
    }
}

/// The values held in all trees of the forest, one per node.
pub open spec fn forest_multiset<T>(q: Seq<Node<T>>) -> Multiset<T>
    decreases q.len(),
{
    if q.len() == 0 {
        Multiset::empty()
    } else {
        node_values(q[0]).add(forest_multiset(q.drop_first()))
    }
}

/// Forest contents distribute over concatenation.
pub proof fn lemma_forest_multiset_concat<T>(a: Seq<Node<T>>, b: Seq<Node<T>>)
    ensures
        forest_multiset(a + b) == forest_multiset(a).add(forest_multiset(b)),
    decreases a.len(),
{
    broadcast use vstd::multiset::group_multiset_axioms;

    if a.len() == 0 {
        assert(a + b =~= b);
        assert(forest_multiset(a + b) =~= forest_multiset(a).add(forest_multiset(b)));
    } else {
        assert((a + b).len() > 0 && (a + b)[0] == a[0]);
        assert((a + b).drop_first() =~= a.drop_first() + b);
        lemma_forest_multiset_concat(a.drop_first(), b);
        assert(forest_multiset(a + b) =~= forest_multiset(a).add(forest_multiset(b)));
    }
}

/// A subtree slot's forest holds exactly the subtree's values.
pub proof fn lemma_root_forest_multiset<T>(root: Option<Box<Node<T>>>)
    ensures
        forest_multiset(root_forest(root)) == subtree_values(root),
{
    broadcast use vstd::multiset::group_multiset_axioms;

    match root {
        None => {},
        Some(node) => {
            assert(root_forest(root).drop_first() =~= Seq::<Node<T>>::empty());
            assert(forest_multiset(Seq::<Node<T>>::empty()) == Multiset::<T>::empty());
            assert(forest_multiset(root_forest(root)) =~= subtree_values(root));
        },
    }
}

/// A breadth-first walk visits exactly the forest's values, one per node.
pub proof fn lemma_breadth_first_multiset<T>(q: Seq<Node<T>>)
    ensures
        breadth_first(q).to_multiset() == forest_multiset(q),
        breadth_first(q).len() == forest_size(q),
    decreases forest_size(q),
{
    broadcast use vstd::multiset::group_multiset_axioms;

    if q.len() == 0 {
        vstd::multiset::lemma_multiset_empty_len(breadth_first(q).to_multiset());
        broadcast use vstd::seq_lib::group_to_multiset_ensures;

    } else {
        lemma_step_size(q);
        lemma_breadth_first_multiset(q.drop_first() + children_of(q[0]));
        lemma_multiset_commutative(
            seq![q[0].data],
            breadth_first(q.drop_first() + children_of(q[0])),
        );
        lemma_singleton_multiset(q[0].data);
        lemma_forest_multiset_concat(q.drop_first(), children_of(q[0]));
        lemma_forest_multiset_concat(root_forest(q[0].left_child), root_forest(q[0].right_child));
        lemma_root_forest_multiset(q[0].left_child);
        lemma_root_forest_multiset(q[0].right_child);
        assert(breadth_first(q).to_multiset() =~= forest_multiset(q));
    }
}

/// A level-order walk visits exactly the subtree's values, one per node.
pub proof fn lemma_level_order_values<T>(root: Option<Box<Node<T>>>)
    ensures
        level_order_spec(root).to_multiset() == subtree_values(root),
        level_order_spec(root).len() == subtree_size(root),
{
    lemma_level_order_breadth_first(root);
    lemma_breadth_first_multiset(root_forest(root));
    lemma_root_forest_multiset(root);
    lemma_root_forest_size(root);
}

} // verus!
