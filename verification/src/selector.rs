//! Matching parsed selectors against single document nodes.

pub mod matcher;
pub mod matching_elements;
