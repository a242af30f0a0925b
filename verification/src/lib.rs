//! Extraction of human-readable text, with embedded ruby (furigana)
//! pronunciation annotations, from a markup tree.
//!
//! The library classifies the nodes of a markup tree, flattens a sub-tree
//! into an ordered sequence of text fragments, and renders the fragments as
//! one string in which an annotated span appears as `base[reading]`.

pub mod classify;
pub mod flatten;
pub mod laws;
pub mod node;
pub mod render;

pub use classify::classify_node;
pub use classify::Kind;
pub use flatten::flatten_nodes;
pub use flatten::flatten_subtree;
pub use flatten::handle_ruby;
pub use flatten::FlattenError;
pub use node::NhkText;
pub use node::Node;
pub use render::render;
