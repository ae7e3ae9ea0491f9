//! Collecting every element of a tree that a selector matches, in
//! pre-order: a node comes before its descendants.

use vstd::prelude::*;

use super::matcher::{g_matches_selector, matches_selector};
use crate::css_parser::{CssSelector, GSel};
use crate::dom::node::{Element, Node};
use crate::tree::unaware_tree::UnawareTree;

verus! {

/// The matching elements of the subtree, in pre-order.
pub open spec fn g_matching_elems(t: UnawareTree<Node>, group: Seq<Seq<GSel>>) -> Seq<Element>
    decreases t, 1int, 0int,
{
    let own: Seq<Element> = match t.node {
        Node::Element(e) => if g_matches_selector(e, group) {
            seq![e]
        } else {
            Seq::empty()
        },
        Node::Text(_) => Seq::empty(),
    };
    match t.children {
        Some(cs) => own + g_matching_kids(t, 0, group),
        None => own,
    }
}

/// The matching elements of the children from `k` on.
pub open spec fn g_matching_kids(t: UnawareTree<Node>, k: int, group: Seq<Seq<GSel>>) -> Seq<
    Element,
>
    decreases t, 0int, (match t.children {
        Some(cs) => cs@.len() - k,
        None => 0int,
    }),
{
    match t.children {
        Some(cs) => {
            if 0 <= k < cs@.len() {
                g_matching_elems(cs@[k], group) + g_matching_kids(t, k + 1, group)
            } else {
                Seq::empty()
            }
        },
        None => Seq::empty(),
    }
}

/// Every element of the tree the selector matches, the node before its
/// descendants and the children in order.
pub fn get_matching_elements<'a>(selector: &CssSelector, tree: &'a UnawareTree<Node>) -> (r: Vec<
    &'a Element,
>)
    ensures
        r@.map_values(|e: &Element| *e) == g_matching_elems(*tree, selector@),
    decreases *tree,
{
    let mut matching: Vec<&'a Element> = Vec::new();
    proof {
        assert(matching@.map_values(|e: &Element| *e) =~= Seq::<Element>::empty());
    }
    match &tree.node {
        Node::Element(e) => {
            if matches_selector(e, selector) {
                matching.push(e);
                proof {
                    assert(matching@.map_values(|q: &Element| *q) =~= seq![*e]);
                }
            }
        },
        Node::Text(_) => {},
    }
    let ghost own = matching@.map_values(|q: &Element| *q);
    match &tree.children {
        Some(cs) => {
            let mut k: usize = 0;
            while k < cs.len()
                invariant
                    tree.children == Some(*cs),
                    k <= cs@.len(),
                    own + g_matching_kids(*tree, 0, selector@) == matching@.map_values(
                        |q: &Element| *q,
                    ) + g_matching_kids(*tree, k as int, selector@),
                decreases cs@.len() - k,
            {
                let ghost pre = matching@.map_values(|q: &Element| *q);
                let mut sub = get_matching_elements(selector, &cs[k]);
                let ghost subv = sub@.map_values(|q: &Element| *q);
                matching.append(&mut sub);
                proof {
                    assert(matching@.map_values(|q: &Element| *q) =~= pre + subv);
                    assert(pre + (subv + g_matching_kids(*tree, k + 1, selector@)) =~= (pre
                        + subv) + g_matching_kids(*tree, k + 1, selector@));
                }
                k += 1;
            }
            proof {
                assert((matching@.map_values(|q: &Element| *q)) + Seq::<Element>::empty()
                    =~= matching@.map_values(|q: &Element| *q));
                assert(g_matching_elems(*tree, selector@) == own + g_matching_kids(
                    *tree,
                    0,
                    selector@,
                ));
            }
        },
        None => {},
    }
    matching
}

} // verus!
