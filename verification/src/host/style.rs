//! Handles into the style table.

use vstd::prelude::*;

verus! {

/// Handle of a style in `layout::Layouts`.
#[derive(Clone, Copy, Debug, PartialEq, Eq, Hash, Structural)]
pub struct StyleId(pub u32);

} // verus!
