//! The per-element selector matcher: whether one element satisfies a
//! selector group, read off its tag, classes and id.

use vstd::prelude::*;

use crate::css_parser::{CssCompositeSelector, CssSelector, CssSimpleSelector, GSel};
use crate::dom::node::{g_class_tokens, Element};
use crate::dom_repr::{assoc_get, attrs_view};
use crate::util::first_token;

verus! {

broadcast use vstd::seq_lib::group_seq_properties;

/// Whether the element satisfies one selector atom.
pub open spec fn g_matches_atom(el: Element, sel: GSel) -> bool {
    match sel {
        GSel::Tag(name) => el.tag_name@ == name,
        GSel::Class(name) => g_class_tokens(attrs_view(el.attributes@)).contains(name),
        GSel::Id(name) => match assoc_get(attrs_view(el.attributes@), "id"@) {
            Some(v) => first_token(v) == name,
            None => false,
        },
    }
}

/// Whether the element satisfies every atom of a composite.
pub open spec fn g_matches_composite(el: Element, atoms: Seq<GSel>) -> bool {
    forall|k: int| 0 <= k < atoms.len() ==> g_matches_atom(el, #[trigger] atoms[k])
}

/// Whether the element satisfies any composite of the group.
pub open spec fn g_matches_selector(el: Element, group: Seq<Seq<GSel>>) -> bool {
    exists|k: int| 0 <= k < group.len() && g_matches_composite(el, #[trigger] group[k])
}

fn matches_simple_selector(element: &Element, selector: &CssSimpleSelector) -> (r: bool)
    ensures
        r == g_matches_atom(*element, selector@),
{
    match selector {
        CssSimpleSelector::Class(class_name) => {
            let classes = element.get_class_list();
            let ghost toks = g_class_tokens(attrs_view(element.attributes@));
            proof {
                crate::dom_repr::lemma_dedup_contains(toks, toks.len() as int);
                assert(toks.take(toks.len() as int) =~= toks);
            }
            let mut i: usize = 0;
            while i < classes.len()
                invariant
                    selector@ == GSel::Class(class_name@),
                    toks == g_class_tokens(attrs_view(element.attributes@)),
                    crate::dom_repr::strs_view(classes@) == crate::dom_repr::dedup_prefix(
                        toks,
                        toks.len() as int,
                    ),
                    forall|x: Seq<char>|
                        #[trigger] crate::dom_repr::dedup_prefix(
                            toks,
                            toks.len() as int,
                        ).contains(x) <==> toks.contains(x),
                    i <= classes@.len(),
                    forall|j: int|
                        0 <= j < i ==> crate::dom_repr::strs_view(classes@)[j] != class_name@,
                decreases classes@.len() - i,
            {
                if crate::util::str_eq(classes[i].as_str(), class_name.as_str()) {
                    proof {
                        let dd = crate::dom_repr::dedup_prefix(toks, toks.len() as int);
                        assert(crate::dom_repr::strs_view(classes@)[i as int] == classes@[
                            i as int
                        ]@);
                        assert(dd[i as int] == class_name@);
                        assert(dd.contains(class_name@));
                        assert(toks.contains(class_name@));
                        assert(g_matches_atom(*element, GSel::Class(class_name@)));
                    }
                    return true;
                }
                proof {
                    assert(crate::dom_repr::strs_view(classes@)[i as int] == classes@[i as int]@);
                }
                i += 1;
            }
            proof {
                let dd = crate::dom_repr::dedup_prefix(toks, toks.len() as int);
                assert forall|j: int| 0 <= j < dd.len() implies dd[j] != class_name@ by {}
                assert(!dd.contains(class_name@));
                assert(!toks.contains(class_name@));
            }
            false
        },
        CssSimpleSelector::Id(id) => {
            match element.get_id() {
                Some(s) => crate::util::str_eq(s.as_str(), id.as_str()),
                None => false,
            }
        },
        CssSimpleSelector::Tag(tag_name) => {
            crate::util::str_eq(element.get_tag_name(), tag_name.as_str())
        },
    }
}

fn matches_composite_selector(el: &Element, selector: &CssCompositeSelector) -> (r: bool)
    ensures
        r == g_matches_composite(*el, selector@),
{
    let mut k: usize = 0;
    while k < selector.sels.len()
        invariant
            k <= selector.sels@.len(),
            forall|j: int| 0 <= j < k ==> g_matches_atom(*el, #[trigger] selector@[j]),
        decreases selector.sels@.len() - k,
    {
        if !matches_simple_selector(el, &selector.sels[k]) {
            proof {
                assert(selector@[k as int] == selector.sels@[k as int]@);
            }
            return false;
        }
        proof {
            assert(selector@[k as int] == selector.sels@[k as int]@);
        }
        k += 1;
    }
    true
}

/// Whether the element satisfies the selector group: any of its composites
/// suffices, and a composite holds when all its atoms do.
pub fn matches_selector(el: &Element, selector: &CssSelector) -> (r: bool)
    ensures
        r == g_matches_selector(*el, selector@),
{
    let mut k: usize = 0;
    while k < selector.sels.len()
        invariant
            k <= selector.sels@.len(),
            forall|j: int| 0 <= j < k ==> !g_matches_composite(*el, #[trigger] selector@[j]),
        decreases selector.sels@.len() - k,
    {
        if matches_composite_selector(el, &selector.sels[k]) {
            proof {
                assert(selector@[k as int] == selector.sels@[k as int]@);
            }
            return true;
        }
        proof {
            assert(selector@[k as int] == selector.sels@[k as int]@);
        }
        k += 1;
    }
    false
}

} // verus!
