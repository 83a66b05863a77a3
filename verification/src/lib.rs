//! A binary tree container with the canonical traversal algorithms:
//! pre-order, in-order and post-order (each in a recursive and an
//! explicit-stack iterative form), and level-order (breadth-first).
//!
//! Every traversal returns the sequence of visited values and is verified
//! against a recursive specification of its visiting order.

pub mod node;
pub mod order;
pub mod tree;
pub mod fixture;
pub mod laws;
