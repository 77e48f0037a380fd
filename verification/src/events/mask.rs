//! Listener mask bits, as stored in a node's properties.

use vstd::prelude::*;

verus! {

pub const POINTER_MOVE: u32 = 0x001;

pub const POINTER_DOWN: u32 = 0x002;

pub const POINTER_UP: u32 = 0x004;

pub const POINTER_ENTER_LEAVE: u32 = 0x008;

pub const WHEEL: u32 = 0x010;

pub const KEY: u32 = 0x020;

pub const FOCUS: u32 = 0x040;

pub const INPUT: u32 = 0x080;

pub const SCROLL: u32 = 0x100;

} // verus!
