//! Classic algorithms and containers, verified: six comparison sorts over
//! `Vec<i64>`, a singly linked list behind stack, queue and sequence
//! contracts, a plain binary search tree, and an ordered key-value binary
//! search tree whose nodes carry parent back-references.  Every operation
//! states what it computes over a mathematical view of its data, and the
//! statements are proved.

mod binary_search_tree;
mod linked_list;
mod simple_binary_tree;
pub mod sorting;
pub mod types;

pub use binary_search_tree::BinarySearchTree;
pub use linked_list::LinkedList;
pub use simple_binary_tree::BinaryTree;
pub use simple_binary_tree::TraverseDirection;

use vstd::prelude::*;

verus! {

/// Ascending order over a sequence of keys: every earlier element is
/// strictly below every later one.
pub open spec fn strictly_increasing(s: Seq<i64>) -> bool {
    forall|i: int, j: int| 0 <= i < j < s.len() ==> s[i] < s[j]
}

/// Ascending order, duplicates allowed: no earlier element is above a later
/// one.
pub open spec fn sorted(s: Seq<i64>) -> bool {
    forall|i: int, j: int| 0 <= i <= j < s.len() ==> s[i] <= s[j]
}

} // verus!
