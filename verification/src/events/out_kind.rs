//! Event kinds sent to listeners (the kind byte of an event record).

use vstd::prelude::*;

verus! {

pub const POINTER_MOVE: u8 = 1;

pub const POINTER_DOWN: u8 = 2;

pub const POINTER_UP: u8 = 3;

pub const POINTER_ENTER: u8 = 4;

pub const POINTER_LEAVE: u8 = 5;

pub const WHEEL: u8 = 6;

pub const KEY_DOWN: u8 = 7;

pub const KEY_UP: u8 = 8;

pub const FOCUS: u8 = 9;

pub const BLUR: u8 = 10;

/// An input's buffer changed; the text is the committed value.
pub const CHANGE: u8 = 11;

/// Enter in a single-line input; the text is the value.
pub const SUBMIT: u8 = 12;

/// A scrollable node's offset changed.
pub const SCROLL: u8 = 13;

} // verus!
