//! A generic tree interface and its plain owned implementation.

use vstd::prelude::*;

pub mod unaware_tree;

verus! {

/// A tree whose shape can be built and walked without naming the concrete
/// representation.
pub trait BasicTree<N>: Sized {
    /// A node that may receive children.
    fn new_node(node: N) -> Self;

    /// A leaf that never holds children.
    fn new_leaf(leaf: N) -> Self;

    fn child_count(&self) -> usize;

    fn add_child(&mut self, child: Self);

    fn get_child(&self, n: usize) -> Option<&Self>;

    fn get_node(&self) -> &N;
}

} // verus!
