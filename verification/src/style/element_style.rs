//! The styles of one element gathered into a single record, filled from a
//! parsed ruleset: later declarations of a property override earlier ones.

use vstd::prelude::*;

use super::styles::{g_first_color, g_four_sides, Color, FourSides};
use crate::css_parser::{CssRule, GRule};

verus! {

/// The recognised properties of an element, each optional.
#[derive(Debug, Clone, Copy, PartialEq, Eq, Structural, Default)]
pub struct ElementStyle {
    pub padding: Option<FourSides>,
    pub margin: Option<FourSides>,
    pub background_color: Option<Color>,
    pub color: Option<Color>,
}

/// The record after reading the declarations from `k` on; an unknown name
/// or a malformed shape leaves the field as it was.
pub open spec fn g_element_style(ctx: ElementStyle, rules: Seq<GRule>, k: int) -> ElementStyle
    decreases rules.len() - k,
{
    if 0 <= k < rules.len() {
        let r = rules[k];
        let ctx2 = if r.name == "padding"@ {
            match g_four_sides(r.params) {
                Some(f) => ElementStyle { padding: Some(f), ..ctx },
                None => ElementStyle { padding: None, ..ctx },
            }
        } else if r.name == "margin"@ {
            match g_four_sides(r.params) {
                Some(f) => ElementStyle { margin: Some(f), ..ctx },
                None => ElementStyle { margin: None, ..ctx },
            }
        } else if r.name == "background-color"@ {
            match g_first_color(r.params) {
                Some(c) => ElementStyle { background_color: Some(c), ..ctx },
                None => ElementStyle { background_color: None, ..ctx },
            }
        } else if r.name == "color"@ {
            match g_first_color(r.params) {
                Some(c) => ElementStyle { color: Some(c), ..ctx },
                None => ElementStyle { color: None, ..ctx },
            }
        } else {
            ctx
        };
        g_element_style(ctx2, rules, k + 1)
    } else {
        ctx
    }
}

impl ElementStyle {
    /// Reads a whole ruleset into the record, in declaration order.
    pub fn from_ruleset(ruleset: &Vec<CssRule>) -> (r: ElementStyle)
        ensures
            r == g_element_style(
                ElementStyle { padding: None, margin: None, background_color: None, color: None },
                ruleset@.map_values(|q: CssRule| q@),
                0,
            ),
    {
        let ghost grules = ruleset@.map_values(|q: CssRule| q@);
        let mut context = ElementStyle {
            padding: None,
            margin: None,
            background_color: None,
            color: None,
        };
        let ghost ctx0 = context;
        let mut k: usize = 0;
        while k < ruleset.len()
            invariant
                k <= grules.len(),
                grules == ruleset@.map_values(|q: CssRule| q@),
                g_element_style(ctx0, grules, 0) == g_element_style(context, grules, k as int),
            decreases grules.len() - k,
        {
            let rule = &ruleset[k];
            if crate::util::str_eq(rule.name.as_str(), "padding") {
                context.padding = match FourSides::try_from_params(&rule.params) {
                    Ok(f) => Some(f),
                    Err(_) => None,
                };
            } else if crate::util::str_eq(rule.name.as_str(), "margin") {
                context.margin = match FourSides::try_from_params(&rule.params) {
                    Ok(f) => Some(f),
                    Err(_) => None,
                };
            } else if crate::util::str_eq(rule.name.as_str(), "background-color") {
                context.background_color = match Color::try_from_params(&rule.params) {
                    Ok(c) => Some(c),
                    Err(_) => None,
                };
            } else if crate::util::str_eq(rule.name.as_str(), "color") {
                context.color = match Color::try_from_params(&rule.params) {
                    Ok(c) => Some(c),
                    Err(_) => None,
                };
            }
            k += 1;
        }
        context
    }
}

} // verus!
