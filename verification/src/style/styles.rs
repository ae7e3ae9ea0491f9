//! The individual style properties: four-side pixel offsets and RGBA
//! colours, each readable from the parameters of one declaration.

use vstd::prelude::*;

use crate::css_parser::{CssRuleParam, GParam};

verus! {

/// A value for each of the four sides, in whole pixels.
#[derive(Debug, Clone, Copy, PartialEq, Eq, Structural)]
pub struct FourSide {
    pub left: i64,
    pub right: i64,
    pub top: i64,
    pub bottom: i64,
}

pub type FourSides = FourSide;

pub type Padding = FourSides;

pub type Margin = FourSides;

/// The four-side shorthand: one value sets all sides, two set (vertical,
/// horizontal), four set (top, right, bottom, left).
pub open spec fn g_four_sides(params: Seq<GParam>) -> Option<FourSide> {
    if params.len() == 1 {
        match params[0] {
            GParam::Unit(p) => Some(
                FourSide { left: p as i64, right: p as i64, top: p as i64, bottom: p as i64 },
            ),
            _ => None,
        }
    } else if params.len() == 2 {
        match (params[0], params[1]) {
            (GParam::Unit(v), GParam::Unit(h)) => Some(
                FourSide { left: h as i64, right: h as i64, top: v as i64, bottom: v as i64 },
            ),
            _ => None,
        }
    } else if params.len() == 4 {
        match (params[0], params[1], params[2], params[3]) {
            (GParam::Unit(t), GParam::Unit(r), GParam::Unit(b), GParam::Unit(l)) => Some(
                FourSide { left: l as i64, right: r as i64, top: t as i64, bottom: b as i64 },
            ),
            _ => None,
        }
    } else {
        None
    }
}

impl FourSide {
    /// Reads the shorthand off a declaration's parameters; any other
    /// shape is rejected.
    pub fn try_from_params(params: &Vec<CssRuleParam>) -> (r: Result<FourSide, ()>)
        ensures
            match r {
                Ok(f) => g_four_sides(params@.map_values(|p: CssRuleParam| p@)) == Some(f),
                Err(_) => g_four_sides(params@.map_values(|p: CssRuleParam| p@)) is None,
            },
    {
        let n = params.len();
        if n == 1 {
            match params[0].into_px() {
                Some(p) => Ok(FourSide { left: p, right: p, top: p, bottom: p }),
                None => Err(()),
            }
        } else if n == 2 {
            match (params[0].into_px(), params[1].into_px()) {
                (Some(v), Some(h)) => Ok(FourSide { left: h, right: h, top: v, bottom: v }),
                _ => Err(()),
            }
        } else if n == 4 {
            match (
                params[0].into_px(),
                params[1].into_px(),
                params[2].into_px(),
                params[3].into_px(),
            ) {
                (Some(t), Some(rr), Some(b), Some(l)) => Ok(
                    FourSide { left: l, right: rr, top: t, bottom: b },
                ),
                _ => Err(()),
            }
        } else {
            Err(())
        }
    }
}

/// A colour in RGBA.
#[derive(Debug, Clone, Copy, PartialEq, Eq, Structural)]
pub struct Color {
    pub red: u8,
    pub green: u8,
    pub blue: u8,
    pub alpha: u8,
}

/// The colour of a declaration's first parameter, if it is one.
pub open spec fn g_first_color(params: Seq<GParam>) -> Option<Color> {
    if params.len() >= 1 {
        match params[0] {
            GParam::Color(r, g, b, a) => Some(
                Color { red: r as u8, green: g as u8, blue: b as u8, alpha: a as u8 },
            ),
            _ => None,
        }
    } else {
        None
    }
}

impl Color {
    /// Reads the colour off a declaration's first parameter.
    pub fn try_from_params(params: &Vec<CssRuleParam>) -> (r: Result<Color, ()>)
        ensures
            match r {
                Ok(c) => g_first_color(params@.map_values(|p: CssRuleParam| p@)) == Some(c),
                Err(_) => g_first_color(params@.map_values(|p: CssRuleParam| p@)) is None,
            },
    {
        if params.len() >= 1 {
            match params[0].into_color() {
                Some((r, g, b, a)) => Ok(Color { red: r, green: g, blue: b, alpha: a }),
                None => Err(()),
            }
        } else {
            Err(())
        }
    }
}

pub type BackgroundColor = Color;

} // verus!
