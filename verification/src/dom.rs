//! The node-and-tree face of the document model: element and text nodes,
//! and a tree wrapper enforcing a single root.

pub mod node;
pub mod tree;
