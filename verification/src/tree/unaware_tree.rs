//! A tree that knows nothing of its surroundings: a value and owned
//! children; a leaf carries no child list at all.

use vstd::prelude::*;

use super::BasicTree;

verus! {

pub struct UnawareTree<N> {
    /// The value at this node.
    pub node: N,
    /// The children; `None` for a leaf that cannot take any.
    pub children: Option<Vec<UnawareTree<N>>>,
}

/// The number of children a tree admits to.
pub open spec fn spec_child_count<N>(t: UnawareTree<N>) -> nat {
    match t.children {
        Some(cs) => cs@.len(),
        None => 0,
    }
}

impl<N> BasicTree<N> for UnawareTree<N> {
    fn new_node(node: N) -> (r: Self)
        ensures
            r.node == node,
            r.children is Some && r.children->0@ == Seq::<UnawareTree<N>>::empty(),
    {
        UnawareTree { node, children: Some(Vec::new()) }
    }

    fn new_leaf(leaf: N) -> (r: Self)
        ensures
            r.node == leaf,
            r.children is None,
    {
        UnawareTree { node: leaf, children: None }
    }

    fn child_count(&self) -> (r: usize)
        ensures
            r == spec_child_count(*self),
    {
        match &self.children {
            Some(children) => children.len(),
            None => 0,
        }
    }

    fn add_child(&mut self, child: Self)
        ensures
            final(self).node == old(self).node,
            old(self).children is Some ==> final(self).children is Some
                && final(self).children->0@ == old(self).children->0@.push(child),
            old(self).children is None ==> *final(self) == *old(self),
    {
        match &mut self.children {
            Some(children) => {
                children.push(child);
            },
            None => {},
        }
    }

    fn get_child(&self, n: usize) -> (r: Option<&Self>)
        ensures
            match r {
                Some(c) => n < spec_child_count(*self) && *c == self.children->0@[n as int],
                None => n >= spec_child_count(*self),
            },
    {
        match &self.children {
            Some(children) => {
                if n < children.len() {
                    Some(&children[n])
                } else {
                    None
                }
            },
            None => None,
        }
    }

    fn get_node(&self) -> (r: &N)
        ensures
            *r == self.node,
    {
        &self.node
    }
}

} // verus!
