//! The document tree: a wrapper holding exactly one root tree.

use vstd::prelude::*;

use super::node::Node;
use crate::tree::BasicTree;

verus! {

/// A document's node tree; building one demands exactly one root.
pub struct NodeTree<Tree: BasicTree<Node>> {
    pub tree: Tree,
}

impl<Tree: BasicTree<Node>> NodeTree<Tree> {
    /// Wraps the single root; a forest with no tree or several is a caller
    /// error, excluded by precondition.
    pub fn from_tree_vec(trees: Vec<Tree>) -> (r: NodeTree<Tree>)
        requires
            trees@.len() == 1,
        ensures
            r.tree == trees@[0],
    {
        let mut trees = trees;
        match trees.pop() {
            Some(t) => NodeTree { tree: t },
            None => {
                proof {
                    assert(false);
                }
                NodeTree { tree: Tree::new_leaf(Node::Text(String::new())) }
            },
        }
    }
}

} // verus!
