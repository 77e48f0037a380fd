//! Compact retained host tree.
//!
//! The sender is authoritative for composition; this module stores only the
//! retained representation. Ordinary nodes are a fixed-size header in a
//! contiguous arena; sparse capabilities live in side tables addressed by
//! the header's `aux`, or in maps keyed by node id.

mod header;
pub mod laws;
pub mod model;
mod node;
pub mod proofs;
mod style;
pub mod tree;

pub use header::{
    law_flags_set_clear, law_hidden_keeps_kind, NodeFlags, NodeHeader, NodeId, NodeKind,
    NodeProps, TextModel, TextRow, ViewRow, DEFAULT_COLOR, DEFAULT_FONT_SIZE, EMPTY_KIND, HIDDEN,
    NO_ROW, ROOT,
};
pub use node::{repainted, Host};
pub use style::StyleId;
