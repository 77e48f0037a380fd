//! Custom nodes: retained nodes that lay out, take hits and scroll like any
//! other, and that an application painter fills.

use crate::scalar::Scalar;
use crate::wire::Payload;
use vstd::prelude::*;

verus! {

/// Payload of one custom node: which painter renders it, four numbers and a
/// text.
#[derive(Clone, Debug)]
pub struct CustomData {
    pub tag: u32,
    pub data: Payload,
    pub text: String,
}

/// What a payload holds.
#[verifier::ext_equal]
pub struct CustomModel {
    pub tag: u32,
    pub data: Payload,
    pub text: Seq<char>,
}

impl View for CustomData {
    type V = CustomModel;

    open spec fn view(&self) -> CustomModel {
        CustomModel { tag: self.tag, data: self.data, text: self.text@ }
    }
}

/// A filled rectangle that a painter emits, in logical points.
#[derive(Clone, Copy, Debug, PartialEq, Eq, Structural)]
pub struct Quad {
    pub x: Scalar,
    pub y: Scalar,
    pub w: Scalar,
    pub h: Scalar,
    /// Fill, 0xRRGGBBAA.
    pub color: u32,
    /// Corner radius.
    pub radius: Scalar,
    /// Border ring width.
    pub border_w: Scalar,
    /// Border ring color, 0xRRGGBBAA.
    pub border_color: u32,
}

} // verus!
