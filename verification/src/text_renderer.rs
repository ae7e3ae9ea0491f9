//! The renderer's text parameters: how a run of glyphs is to be drawn.
//! Drawing itself belongs to the graphics backend outside this library.

use vstd::prelude::*;

verus! {

/// How text is drawn: weight, slant, spacing and colour.
#[derive(Debug, Clone, Copy, PartialEq, Eq)]
pub struct FontData {
    pub bold: bool,
    pub italic: bool,
    pub letter_spacing: i32,
    pub row_spacing: i32,
    pub color: (u8, u8, u8, u8),
}

} // verus!
