//! Style data as a per-element record: the four-side shorthand values and
//! colours extracted from a parsed ruleset.

pub mod element_style;
pub mod styles;
