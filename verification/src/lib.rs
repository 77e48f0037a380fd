//! Retained native UI host: the node tree, its binary transaction wire, the
//! interaction state machine, the glyph atlas and the commit bridge.
//!
//! Every number that the renderer treats as a 32-bit float is carried through
//! this crate as its bit pattern (`scalar::Scalar`): the crate compares such
//! numbers and hands them on, and leaves sums and products to its caller.

pub mod a11y;
pub mod bridge;
pub mod custom;
pub mod events;
pub mod geom;
pub mod gpu;
pub mod host;
pub mod input;
pub mod layout;
pub mod platform;
pub mod runtime;
pub mod scalar;
pub mod scene;
pub mod style;
pub mod sync;
pub mod text;
pub mod ui;
pub mod wire;
