//! A small document-to-boxes pipeline: a slot arena with stable handles, a
//! DOM built from streaming markup events, a recursive-descent CSS parser,
//! a selector matcher, a cascading style resolver and a two-pass box layout
//! producing a flat list of frames for a renderer.

pub mod atoms;
pub mod bucket_array;
pub mod css_gen;
pub mod css_matcher;
pub mod css_parser;
pub mod dom;
pub mod dom_repr;
pub mod selector;
pub mod style;
pub mod text_renderer;
pub mod tree;
pub mod ui;
pub mod util;
pub mod xml_ui;
