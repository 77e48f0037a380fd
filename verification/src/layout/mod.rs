//! Per-node layout state, the style table, and what a layout pass decides.
//!
//! The flexbox solver runs outside this crate; it reads children and styles
//! from the host and this module, and its results are stored here. Dirty
//! propagation is explicit: a node's solver cache covers its own inputs, not
//! its children, so a mutation clears the cache of the node and of every
//! ancestor up to the root.
//!
//! Units: everything in this module is logical (independent of the display
//! scale).

pub mod pass;
pub mod store;

pub use pass::{invalidate, LayoutPath, MeasurePlan, Space};
pub use store::{LayoutData, Layouts, LayoutsModel};
