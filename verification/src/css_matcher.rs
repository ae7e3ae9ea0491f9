//! The selector engine: evaluates a parsed selector group against the DOM.
//! Each composite selector narrows the candidate set (the root and all its
//! descendant elements) atom by atom; the group is the union of its
//! composites. Results are sets of handles, kept as duplicate-free vectors.

use vstd::prelude::*;

use crate::atoms::Id;
use crate::css_parser::{CssParser, CssVariantSelector, GSel};
use crate::dom_repr::{g_by_class, g_by_id, g_by_tag, g_compose, DomSystem, GDom};

verus! {

broadcast use vstd::set::group_set_axioms, vstd::seq_lib::group_seq_properties;

/// No handle occurs twice.
pub open spec fn uniq(s: Seq<Id>) -> bool {
    forall|i: int, j: int| 0 <= i < j < s.len() ==> s[i] != s[j]
}

/// The candidate set a composite starts from: the root and its descendant
/// elements.
pub open spec fn g_base_set(slots: Seq<GDom>, root: int) -> Set<Id> {
    g_compose(slots, root)->0.to_set().insert(root as Id)
}

/// The candidate set after the atoms of a composite from `k` on; an id
/// atom narrows to (at most) the one matching element and ends the
/// composite.
pub open spec fn g_composite_set(
    slots: Seq<GDom>,
    root: int,
    atoms: Seq<GSel>,
    k: int,
    cur: Set<Id>,
) -> Set<Id>
    decreases atoms.len() - k,
{
    if 0 <= k < atoms.len() {
        match atoms[k] {
            GSel::Class(n) => g_composite_set(
                slots,
                root,
                atoms,
                k + 1,
                cur.intersect(g_by_class(slots, root, n)->0.to_set()),
            ),
            GSel::Tag(n) => g_composite_set(
                slots,
                root,
                atoms,
                k + 1,
                cur.intersect(g_by_tag(slots, root, n)->0.to_set()),
            ),
            GSel::Id(n) => match g_by_id(slots, root, n) {
                Some(el) => cur.intersect(Set::empty().insert(el)),
                None => Set::empty(),
            },
        }
    } else {
        cur
    }
}

/// The union of the composites of a group, from `k` on.
pub open spec fn g_group_set(
    slots: Seq<GDom>,
    root: int,
    group: Seq<Seq<GSel>>,
    k: int,
    acc: Set<Id>,
) -> Set<Id>
    decreases group.len() - k,
{
    if 0 <= k < group.len() {
        g_group_set(
            slots,
            root,
            group,
            k + 1,
            acc.union(g_composite_set(slots, root, group[k], 0, g_base_set(slots, root))),
        )
    } else {
        acc
    }
}

/// The set of elements a selector group matches, starting at the root.
pub open spec fn g_match_set(slots: Seq<GDom>, root: int, group: Seq<Seq<GSel>>) -> Set<Id> {
    g_group_set(slots, root, group, 0, Set::empty())
}

fn vec_has_id(v: &Vec<Id>, id: Id) -> (r: bool)
    ensures
        r == v@.contains(id),
{
    let mut i: usize = 0;
    while i < v.len()
        invariant
            i <= v@.len(),
            forall|j: int| 0 <= j < i ==> v@[j] != id,
        decreases v@.len() - i,
    {
        if v[i] == id {
            return true;
        }
        i += 1;
    }
    false
}

/// The duplicate-free intersection, in `a`'s first-occurrence order.
fn intersect_ids(a: &Vec<Id>, b: &Vec<Id>) -> (out: Vec<Id>)
    ensures
        uniq(out@),
        out@.to_set() == a@.to_set().intersect(b@.to_set()),
{
    let mut out: Vec<Id> = Vec::new();
    let mut i: usize = 0;
    while i < a.len()
        invariant
            i <= a@.len(),
            uniq(out@),
            forall|x: Id|
                out@.contains(x) <==> (a@.take(i as int).contains(x) && b@.contains(x)),
        decreases a@.len() - i,
    {
        let x = a[i];
        if vec_has_id(b, x) && !vec_has_id(&out, x) {
            out.push(x);
        }
        proof {
            assert forall|y: Id|
                out@.contains(y) <==> (a@.take(i + 1).contains(y) && b@.contains(y)) by {
                assert(a@.take(i + 1).drop_last() =~= a@.take(i as int));
                if a@.take(i + 1).contains(y) && !a@.take(i as int).contains(y) {
                    assert(a@.take(i + 1).last() == y);
                }
                if a@.take(i as int).contains(y) {
                    assert(a@.take(i + 1).contains(y));
                }
            }
        }
        i += 1;
    }
    proof {
        assert(a@.take(a@.len() as int) =~= a@);
        assert forall|y: Id|
            out@.to_set().contains(y) == a@.to_set().intersect(b@.to_set()).contains(y) by {
            assert(out@.to_set().contains(y) == out@.contains(y));
            assert(a@.to_set().contains(y) == a@.contains(y));
            assert(b@.to_set().contains(y) == b@.contains(y));
        }
        assert(out@.to_set() =~= a@.to_set().intersect(b@.to_set()));
    }
    out
}

/// The duplicate-free union: `a`'s entries, then the new ones of `b`.
fn union_ids(a: &Vec<Id>, b: &Vec<Id>) -> (out: Vec<Id>)
    requires
        uniq(a@),
    ensures
        uniq(out@),
        out@.to_set() == a@.to_set().union(b@.to_set()),
{
    let mut out: Vec<Id> = Vec::new();
    let mut i: usize = 0;
    while i < a.len()
        invariant
            uniq(a@),
            i <= a@.len(),
            out@ == a@.take(i as int),
        decreases a@.len() - i,
    {
        out.push(a[i]);
        proof {
            assert(out@ =~= a@.take(i + 1));
        }
        i += 1;
    }
    proof {
        assert(out@ =~= a@);
    }
    let mut j: usize = 0;
    while j < b.len()
        invariant
            j <= b@.len(),
            uniq(out@),
            forall|x: Id| out@.contains(x) <==> (a@.contains(x) || b@.take(j as int).contains(x)),
        decreases b@.len() - j,
    {
        let x = b[j];
        if !vec_has_id(&out, x) {
            out.push(x);
        }
        proof {
            assert forall|y: Id|
                out@.contains(y) <==> (a@.contains(y) || b@.take(j + 1).contains(y)) by {
                assert(b@.take(j + 1).drop_last() =~= b@.take(j as int));
                if b@.take(j + 1).contains(y) && !b@.take(j as int).contains(y) {
                    assert(b@.take(j + 1).last() == y);
                }
                if b@.take(j as int).contains(y) {
                    assert(b@.take(j + 1).contains(y));
                }
            }
        }
        j += 1;
    }
    proof {
        assert(b@.take(b@.len() as int) =~= b@);
        assert forall|y: Id|
            out@.to_set().contains(y) == a@.to_set().union(b@.to_set()).contains(y) by {
            assert(out@.to_set().contains(y) == out@.contains(y));
            assert(a@.to_set().contains(y) == a@.contains(y));
            assert(b@.to_set().contains(y) == b@.contains(y));
        }
        assert(out@.to_set() =~= a@.to_set().union(b@.to_set()));
    }
    out
}

/// The duplicate-free copy, first occurrences kept.
fn dedup_ids(a: &Vec<Id>) -> (out: Vec<Id>)
    ensures
        uniq(out@),
        out@.to_set() == a@.to_set(),
{
    let mut out: Vec<Id> = Vec::new();
    let mut i: usize = 0;
    while i < a.len()
        invariant
            i <= a@.len(),
            uniq(out@),
            forall|x: Id| out@.contains(x) <==> a@.take(i as int).contains(x),
        decreases a@.len() - i,
    {
        let x = a[i];
        if !vec_has_id(&out, x) {
            out.push(x);
        }
        proof {
            assert forall|y: Id| out@.contains(y) <==> a@.take(i + 1).contains(y) by {
                assert(a@.take(i + 1).drop_last() =~= a@.take(i as int));
                if a@.take(i + 1).contains(y) && !a@.take(i as int).contains(y) {
                    assert(a@.take(i + 1).last() == y);
                }
                if a@.take(i as int).contains(y) {
                    assert(a@.take(i + 1).contains(y));
                }
            }
        }
        i += 1;
    }
    proof {
        assert(a@.take(a@.len() as int) =~= a@);
        assert forall|y: Id| out@.to_set().contains(y) == a@.to_set().contains(y) by {
            assert(out@.to_set().contains(y) == out@.contains(y));
            assert(a@.to_set().contains(y) == a@.contains(y));
        }
        assert(out@.to_set() =~= a@.to_set());
    }
    out
}

/// The handles of the elements a selector group matches, duplicate-free.
/// An id atom narrows its composite to the one element with that id and
/// ends the composite; a missing id empties it.
pub fn match_selector_against_dom(selector: &CssVariantSelector, against: &DomSystem) -> (r: Vec<
    Id,
>)
    requires
        against.wf(),
        against.slots()[against.spec_root() as int] is Element,
    ensures
        uniq(r@),
        r@.to_set() == g_match_set(against.slots(), against.spec_root() as int, selector@),
{
    let ghost slots = against.slots();
    let root = against.root();
    let ghost groot = root as int;
    let mut multiple: Vec<Id> = Vec::new();
    let mut m: usize = 0;
    proof {
        assert(Seq::<Id>::empty().to_set() =~= Set::<Id>::empty());
    }
    while m < selector.sels.len()
        invariant
            against.wf(),
            slots == against.slots(),
            root == against.spec_root(),
            groot == root as int,
            slots[groot] is Element,
            m <= selector.sels@.len(),
            uniq(multiple@),
            g_match_set(slots, groot, selector@) == g_group_set(
                slots,
                groot,
                selector@,
                m as int,
                multiple@.to_set(),
            ),
        decreases selector.sels@.len() - m,
    {
        let composite = &selector.sels[m];
        let composed = match against.compose_children(root) {
            Some(c) => c,
            None => {
                proof {
                    assert(false);
                }
                return multiple;
            },
        };
        let mut base = composed;
        base.push(root);
        let mut subset = dedup_ids(&base);
        proof {
            assert(base@.drop_last() =~= composed@);
            assert forall|y: Id|
                base@.to_set().contains(y) == g_base_set(slots, groot).contains(y) by {
                assert(base@.to_set().contains(y) == base@.contains(y));
                assert(composed@.to_set().contains(y) == composed@.contains(y));
                if base@.contains(y) && y != root {
                    let ix = choose|ix: int| 0 <= ix < base@.len() && base@[ix] == y;
                    assert(composed@[ix] == y);
                }
                if composed@.contains(y) {
                    let ix = choose|ix: int| 0 <= ix < composed@.len() && composed@[ix] == y;
                    assert(base@[ix] == y);
                }
                assert(base@[base@.len() - 1] == root);
            }
            assert(base@.to_set() =~= g_base_set(slots, groot));
        }
        let mut k: usize = 0;
        let ghost atoms = selector@[m as int];
        proof {
            assert(atoms == composite@);
        }
        let mut broke = false;
        while k < composite.sels.len() && !broke
            invariant
                against.wf(),
                slots == against.slots(),
                root == against.spec_root(),
                groot == root as int,
                slots[groot] is Element,
                atoms == composite@,
                k <= composite.sels@.len(),
                uniq(subset@),
                !broke ==> g_composite_set(slots, groot, atoms, 0, g_base_set(slots, groot))
                    == g_composite_set(slots, groot, atoms, k as int, subset@.to_set()),
                broke ==> g_composite_set(slots, groot, atoms, 0, g_base_set(slots, groot))
                    == subset@.to_set(),
            decreases composite.sels@.len() - k,
        {
            let ghost pre_set = subset@.to_set();
            match &composite.sels[k] {
                crate::css_parser::CssSimpleSelector::Class(class_name) => {
                    let els = match against.get_elements_by_class_name(root, class_name.as_str()) {
                        Some(e) => e,
                        None => {
                            proof {
                                assert(false);
                            }
                            return multiple;
                        },
                    };
                    subset = intersect_ids(&subset, &els);
                    proof {
                        assert(atoms[k as int] == composite.sels@[k as int]@);
                        assert(atoms[k as int] == GSel::Class(class_name@));
                        assert(subset@.to_set() =~= pre_set.intersect(
                            g_by_class(slots, groot, class_name@)->0.to_set(),
                        ));
                    }
                },
                crate::css_parser::CssSimpleSelector::Tag(tag_name) => {
                    let els = match against.get_elements_by_tag_name(root, tag_name.as_str()) {
                        Some(e) => e,
                        None => {
                            proof {
                                assert(false);
                            }
                            return multiple;
                        },
                    };
                    subset = intersect_ids(&subset, &els);
                    proof {
                        assert(atoms[k as int] == composite.sels@[k as int]@);
                        assert(atoms[k as int] == GSel::Tag(tag_name@));
                        assert(subset@.to_set() =~= pre_set.intersect(
                            g_by_tag(slots, groot, tag_name@)->0.to_set(),
                        ));
                    }
                },
                crate::css_parser::CssSimpleSelector::Id(idname) => {
                    proof {
                        assert(atoms[k as int] == composite.sels@[k as int]@);
                        assert(atoms[k as int] == GSel::Id(idname@));
                    }
                    match against.get_element_by_id(root, idname.as_str()) {
                        Some(element) => {
                            let mut one: Vec<Id> = Vec::new();
                            one.push(element);
                            subset = intersect_ids(&subset, &one);
                            proof {
                                assert forall|y: Id|
                                    one@.to_set().contains(y) == Set::<Id>::empty().insert(
                                        element,
                                    ).contains(y) by {
                                    assert(one@.to_set().contains(y) == one@.contains(y));
                                    if y == element {
                                        assert(one@[0] == y);
                                    }
                                }
                                assert(one@.to_set() =~= Set::<Id>::empty().insert(element));
                                assert(subset@.to_set() =~= pre_set.intersect(
                                    Set::<Id>::empty().insert(element),
                                ));
                            }
                            broke = true;
                        },
                        None => {
                            subset = Vec::new();
                            proof {
                                assert(subset@.to_set() =~= Set::<Id>::empty());
                            }
                            broke = true;
                        },
                    }
                },
            }
            k += 1;
        }
        proof {
            if !broke {
                assert(g_composite_set(slots, groot, atoms, composite.sels@.len() as int, subset@.to_set())
                    == subset@.to_set());
            }
        }
        let ghost pre_multi = multiple@.to_set();
        let merged = union_ids(&multiple, &subset);
        multiple = merged;
        proof {
            assert(multiple@.to_set() =~= pre_multi.union(
                g_composite_set(slots, groot, atoms, 0, g_base_set(slots, groot)),
            ));
        }
        m += 1;
    }
    multiple
}

/// Looking elements up by a selector written as text.
pub trait QuerySelectorExt {
    /// The well-formedness the query needs of the receiver.
    spec fn qs_wf(&self) -> bool;

    /// The handles matching the selector text; an unparsable selector
    /// matches nothing.
    fn query_selector(&self, selector: &str) -> (r: Vec<Id>)
        requires
            self.qs_wf(),
        ensures
            uniq(r@),
    ;
}

impl QuerySelectorExt for DomSystem {
    open spec fn qs_wf(&self) -> bool {
        self.wf() && self.slots()[self.spec_root() as int] is Element
    }

    fn query_selector(&self, selector: &str) -> (r: Vec<Id>)
        ensures
            ({
                let st0 = crate::css_parser::nr(
                    selector@,
                    crate::css_parser::PState { pos: 0, cur: ' ', line: 0, col: 0, eof: false },
                );
                match crate::css_parser::g_multiple(selector@, st0).0 {
                    Ok(gsel) => r@.to_set() == g_match_set(
                        self.slots(),
                        self.spec_root() as int,
                        gsel,
                    ),
                    Err(_) => r@.len() == 0,
                }
            }),
    {
        let mut parser = CssParser::new(selector);
        match parser.parse_selector() {
            Ok(sel) => match_selector_against_dom(&sel, self),
            Err(_) => Vec::new(),
        }
    }
}

} // verus!
