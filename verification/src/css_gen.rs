//! Turns parsed CSS declarations into typed style values: the closed
//! property mapping, with the 1/2/4-value shorthand for paddings and
//! margins. Unknown property names and malformed parameter shapes are
//! dropped, never fatal.

use vstd::prelude::*;

use crate::css_parser::{CssRule, CssRuleParam, GParam, GRule};
use crate::ui::{rule_matches_tag, DisplayType, StretchType, Style, StyleMap, StyleRule, StyleRuleTag};

verus! {

/// The style map after applying the generated pairs from `k` on, each one
/// overwriting any earlier value for its property.
pub open spec fn g_apply_pairs(
    m: StyleMap,
    pairs: Seq<(StyleRuleTag, StyleRule)>,
    k: int,
) -> StyleMap
    decreases pairs.len() - k,
{
    if 0 <= k < pairs.len() {
        g_apply_pairs(
            m.spec_insert(
                pairs[k].0,
                Style { rule: pairs[k].1, propagating: pairs[k].0 is Color },
            ),
            pairs,
            k + 1,
        )
    } else {
        m
    }
}

/// Cascade order decides: after applying a pair list, a property holds the
/// value of the last pair that set it. In particular, when two matched
/// blocks both set the same property, the later block's value wins.
pub proof fn lemma_cascade_later_wins(
    m: StyleMap,
    pairs: Seq<(StyleRuleTag, StyleRule)>,
    j: int,
    t: StyleRuleTag,
)
    requires
        0 <= j < pairs.len(),
        pairs[j].0 == t,
        forall|k: int| j < k < pairs.len() ==> (#[trigger] pairs[k]).0 != t,
    ensures
        g_apply_pairs(m, pairs, 0).spec_get(t) == Some(
            Style { rule: pairs[j].1, propagating: t is Color },
        ),
{
    lemma_apply_pairs_last(m, pairs, 0, j, t);
}

proof fn lemma_apply_pairs_last(
    m: StyleMap,
    pairs: Seq<(StyleRuleTag, StyleRule)>,
    k: int,
    j: int,
    t: StyleRuleTag,
)
    requires
        0 <= k <= j < pairs.len(),
        pairs[j].0 == t,
        forall|i: int| j < i < pairs.len() ==> (#[trigger] pairs[i]).0 != t,
    ensures
        g_apply_pairs(m, pairs, k).spec_get(t) == Some(
            Style { rule: pairs[j].1, propagating: t is Color },
        ),
    decreases pairs.len() - k,
{
    let m2 = m.spec_insert(
        pairs[k].0,
        Style { rule: pairs[k].1, propagating: pairs[k].0 is Color },
    );
    m.lemma_spec_insert(
        pairs[k].0,
        Style { rule: pairs[k].1, propagating: pairs[k].0 is Color },
    );
    if k < j {
        lemma_apply_pairs_last(m2, pairs, k + 1, j, t);
    } else {
        lemma_apply_pairs_untouched(m2, pairs, k + 1, t);
    }
}

/// Applying a concatenation is applying the parts in turn.
pub proof fn lemma_apply_pairs_concat(
    m: StyleMap,
    a: Seq<(StyleRuleTag, StyleRule)>,
    b: Seq<(StyleRuleTag, StyleRule)>,
    k: int,
)
    requires
        0 <= k <= a.len(),
    ensures
        g_apply_pairs(m, a + b, k) == g_apply_pairs(g_apply_pairs(m, a, k), b, 0),
    decreases a.len() - k,
{
    if k < a.len() {
        assert((a + b)[k] == a[k]);
        lemma_apply_pairs_concat(
            m.spec_insert(a[k].0, Style { rule: a[k].1, propagating: a[k].0 is Color }),
            a,
            b,
            k + 1,
        );
    } else {
        lemma_apply_pairs_shift(m, a, b, 0);
    }
}

proof fn lemma_apply_pairs_shift(
    m: StyleMap,
    a: Seq<(StyleRuleTag, StyleRule)>,
    b: Seq<(StyleRuleTag, StyleRule)>,
    k: int,
)
    requires
        0 <= k <= b.len(),
    ensures
        g_apply_pairs(m, a + b, a.len() + k) == g_apply_pairs(m, b, k),
    decreases b.len() - k,
{
    if k < b.len() {
        assert((a + b)[a.len() + k] == b[k]);
        lemma_apply_pairs_shift(
            m.spec_insert(b[k].0, Style { rule: b[k].1, propagating: b[k].0 is Color }),
            a,
            b,
            k + 1,
        );
    }
}

/// A property none of the remaining pairs sets keeps its value.
proof fn lemma_apply_pairs_untouched(
    m: StyleMap,
    pairs: Seq<(StyleRuleTag, StyleRule)>,
    k: int,
    t: StyleRuleTag,
)
    requires
        forall|i: int| k <= i < pairs.len() ==> (#[trigger] pairs[i]).0 != t,
    ensures
        g_apply_pairs(m, pairs, k).spec_get(t) == m.spec_get(t),
    decreases pairs.len() - k,
{
    if 0 <= k < pairs.len() {
        let m2 = m.spec_insert(
            pairs[k].0,
            Style { rule: pairs[k].1, propagating: pairs[k].0 is Color },
        );
        m.lemma_spec_insert(
            pairs[k].0,
            Style { rule: pairs[k].1, propagating: pairs[k].0 is Color },
        );
        lemma_apply_pairs_untouched(m2, pairs, k + 1, t);
    }
}

/// The offset shorthand: one value sets all sides, two set (vertical,
/// horizontal), four set (top, right, bottom, left); anything else is
/// malformed.
pub open spec fn g_params_into_offset(params: Seq<GParam>) -> Option<StyleRule> {
    if params.len() == 1 {
        match params[0] {
            GParam::Unit(p) => Some(
                StyleRule::Offset { l: p as i64, t: p as i64, r: p as i64, b: p as i64 },
            ),
            _ => None,
        }
    } else if params.len() == 2 {
        match (params[0], params[1]) {
            (GParam::Unit(v), GParam::Unit(h)) => Some(
                StyleRule::Offset { l: h as i64, t: v as i64, r: h as i64, b: v as i64 },
            ),
            _ => None,
        }
    } else if params.len() == 4 {
        match (params[0], params[1], params[2], params[3]) {
            (GParam::Unit(t), GParam::Unit(r), GParam::Unit(b), GParam::Unit(l)) => Some(
                StyleRule::Offset { l: l as i64, t: t as i64, r: r as i64, b: b as i64 },
            ),
            _ => None,
        }
    } else {
        None
    }
}

/// What a declaration contributes: its property tag and value, or nothing
/// when the name is unknown or the parameters have the wrong shape.
pub open spec fn g_generate_rule(rule: GRule) -> Option<(StyleRuleTag, StyleRule)> {
    match StyleRuleTag::spec_from(rule.name) {
        None => None,
        Some(tag) => {
            let v: Option<StyleRule> = match tag {
                StyleRuleTag::BackgroundColor | StyleRuleTag::Color => {
                    if rule.params.len() >= 1 {
                        match rule.params[0] {
                            GParam::Color(r, g, b, a) => Some(
                                StyleRule::Color {
                                    color: (r as u8, g as u8, b as u8, a as u8),
                                },
                            ),
                            _ => None,
                        }
                    } else {
                        None
                    }
                },
                StyleRuleTag::Padding | StyleRuleTag::Margin => g_params_into_offset(rule.params),
                StyleRuleTag::Border => {
                    if rule.params.len() >= 2 {
                        match (rule.params[0], rule.params[1]) {
                            (GParam::Unit(s), GParam::Color(r, g, b, a)) => Some(
                                StyleRule::Outline {
                                    size: s as i64,
                                    color: (r as u8, g as u8, b as u8, a as u8),
                                },
                            ),
                            _ => None,
                        }
                    } else {
                        None
                    }
                },
                StyleRuleTag::Display => {
                    if rule.params.len() >= 1 {
                        match rule.params[0] {
                            GParam::UnknownIdent(s) => if s == "block"@ {
                                Some(StyleRule::Display(DisplayType::Block))
                            } else if s == "inline"@ {
                                Some(StyleRule::Display(DisplayType::Inline))
                            } else {
                                None
                            },
                            _ => None,
                        }
                    } else {
                        None
                    }
                },
                StyleRuleTag::Stretch => {
                    if rule.params.len() >= 1 {
                        match rule.params[0] {
                            GParam::UnknownIdent(s) => if s == "yes"@ || s == "true"@ {
                                Some(StyleRule::Stretch(StretchType::True))
                            } else if s == "false"@ || s == "no"@ {
                                Some(StyleRule::Stretch(StretchType::False))
                            } else {
                                None
                            },
                            _ => None,
                        }
                    } else {
                        None
                    }
                },
            };
            match v {
                Some(r) => Some((tag, r)),
                None => None,
            }
        },
    }
}

/// The contributions of a whole ruleset, in declaration order.
pub open spec fn g_generate_from(rules: Seq<GRule>, k: int) -> Seq<(StyleRuleTag, StyleRule)>
    decreases rules.len() - k,
{
    if 0 <= k < rules.len() {
        match g_generate_rule(rules[k]) {
            Some(p) => seq![p] + g_generate_from(rules, k + 1),
            None => g_generate_from(rules, k + 1),
        }
    } else {
        Seq::empty()
    }
}

/// A generated value always has the shape its tag calls for.
pub proof fn lemma_generate_rule_shape(rule: GRule)
    ensures
        match g_generate_rule(rule) {
            Some(p) => rule_matches_tag(p.0, p.1),
            None => true,
        },
{
}

/// Every pair a ruleset generates has the shape its tag calls for.
pub proof fn lemma_generate_from_shapes(rules: Seq<GRule>, k: int)
    ensures
        forall|j: int|
            0 <= j < g_generate_from(rules, k).len() ==> rule_matches_tag(
                (#[trigger] g_generate_from(rules, k)[j]).0,
                g_generate_from(rules, k)[j].1,
            ),
    decreases rules.len() - k,
{
    if 0 <= k < rules.len() {
        lemma_generate_from_shapes(rules, k + 1);
        lemma_generate_rule_shape(rules[k]);
        let g = g_generate_from(rules, k);
        let rest = g_generate_from(rules, k + 1);
        assert forall|j: int| 0 <= j < g.len() implies rule_matches_tag(
            (#[trigger] g[j]).0,
            g[j].1,
        ) by {
            match g_generate_rule(rules[k]) {
                Some(p) => {
                    if j > 0 {
                        assert(g[j] == rest[j - 1]);
                    } else {
                        assert(g[0] == p);
                    }
                },
                None => {
                    assert(g[j] == rest[j]);
                },
            }
        }
    }
}

/// The offset shorthand on a parameter slice.
pub fn params_into_offset(params: &Vec<CssRuleParam>) -> (r: Option<StyleRule>)
    ensures
        r == g_params_into_offset(params@.map_values(|p: CssRuleParam| p@)),
    {
    let n = params.len();
    if n == 1 {
        match params[0].into_px() {
            Some(p) => Some(StyleRule::Offset { l: p, t: p, r: p, b: p }),
            None => None,
        }
    } else if n == 2 {
        match (params[0].into_px(), params[1].into_px()) {
            (Some(v), Some(h)) => Some(StyleRule::Offset { l: h, t: v, r: h, b: v }),
            _ => None,
        }
    } else if n == 4 {
        match (
            params[0].into_px(),
            params[1].into_px(),
            params[2].into_px(),
            params[3].into_px(),
        ) {
            (Some(t), Some(r), Some(b), Some(l)) => Some(
                StyleRule::Offset { l, t, r, b },
            ),
            _ => None,
        }
    } else {
        None
    }
}

/// One declaration's contribution, or `None` for an unknown name or a
/// malformed shape.
pub fn generate_rule(rule: &CssRule) -> (r: Option<(StyleRuleTag, StyleRule)>)
    ensures
        r == g_generate_rule(rule@),
{
    let tag = match StyleRuleTag::from(rule.name.as_str()) {
        Some(t) => t,
        None => {
            return None;
        },
    };
    let v: Option<StyleRule> = match tag {
        StyleRuleTag::BackgroundColor | StyleRuleTag::Color => {
            if rule.params.len() >= 1 {
                match rule.params[0].into_color() {
                    Some(c) => Some(StyleRule::Color { color: c }),
                    None => None,
                }
            } else {
                None
            }
        },
        StyleRuleTag::Padding | StyleRuleTag::Margin => params_into_offset(&rule.params),
        StyleRuleTag::Border => {
            if rule.params.len() >= 2 {
                match (rule.params[0].into_px(), rule.params[1].into_color()) {
                    (Some(s), Some(c)) => Some(StyleRule::Outline { size: s, color: c }),
                    _ => None,
                }
            } else {
                None
            }
        },
        StyleRuleTag::Display => {
            if rule.params.len() >= 1 {
                match rule.params[0].into_ident() {
                    Some(id) => {
                        if crate::util::str_eq(id, "block") {
                            Some(StyleRule::Display(DisplayType::Block))
                        } else if crate::util::str_eq(id, "inline") {
                            Some(StyleRule::Display(DisplayType::Inline))
                        } else {
                            None
                        }
                    },
                    None => None,
                }
            } else {
                None
            }
        },
        StyleRuleTag::Stretch => {
            if rule.params.len() >= 1 {
                match rule.params[0].into_ident() {
                    Some(id) => {
                        if crate::util::str_eq(id, "yes") || crate::util::str_eq(id, "true") {
                            Some(StyleRule::Stretch(StretchType::True))
                        } else if crate::util::str_eq(id, "false") || crate::util::str_eq(
                            id,
                            "no",
                        ) {
                            Some(StyleRule::Stretch(StretchType::False))
                        } else {
                            None
                        }
                    },
                    None => None,
                }
            } else {
                None
            }
        },
    };
    match v {
        Some(rr) => Some((tag, rr)),
        None => None,
    }
}

/// Every contribution of the ruleset, in declaration order.
pub fn generate_from(rules: &Vec<CssRule>) -> (r: Vec<(StyleRuleTag, StyleRule)>)
    ensures
        r@ == g_generate_from(rules@.map_values(|q: CssRule| q@), 0),
{
    let ghost grules = rules@.map_values(|q: CssRule| q@);
    let mut styles: Vec<(StyleRuleTag, StyleRule)> = Vec::new();
    let mut k: usize = 0;
    while k < rules.len()
        invariant
            k <= grules.len(),
            grules == rules@.map_values(|q: CssRule| q@),
            g_generate_from(grules, 0) == styles@ + g_generate_from(grules, k as int),
        decreases grules.len() - k,
    {
        let ghost pre = styles@;
        match generate_rule(&rules[k]) {
            Some(p) => {
                styles.push(p);
                proof {
                    assert(pre + (seq![p] + g_generate_from(grules, k + 1)) =~= styles@
                        + g_generate_from(grules, k + 1));
                }
            },
            None => {},
        }
        k += 1;
    }
    proof {
        assert(g_generate_from(grules, 0) =~= styles@);
    }
    styles
}

} // verus!
