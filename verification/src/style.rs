//! Flexbox styles: the record that a style op carries.

use crate::scalar::{Scalar, ONE_BITS};
use vstd::prelude::*;

verus! {

#[derive(Clone, Copy, Debug, PartialEq, Eq, Structural)]
pub enum Display {
    Flex,
    Gone,
}

#[derive(Clone, Copy, Debug, PartialEq, Eq, Structural)]
pub enum Position {
    Relative,
    Absolute,
}

#[derive(Clone, Copy, Debug, PartialEq, Eq, Structural)]
pub enum FlexDirection {
    Row,
    Column,
    RowReverse,
    ColumnReverse,
}

#[derive(Clone, Copy, Debug, PartialEq, Eq, Structural)]
pub enum FlexWrap {
    NoWrap,
    Wrap,
    WrapReverse,
}

/// Alignment of items along an axis.
#[derive(Clone, Copy, Debug, PartialEq, Eq, Structural)]
pub enum AlignItems {
    Start,
    End,
    FlexStart,
    FlexEnd,
    SelfStart,
    SelfEnd,
    Center,
    Baseline,
    Stretch,
}

/// Distribution of space along an axis.
#[derive(Clone, Copy, Debug, PartialEq, Eq, Structural)]
pub enum AlignContent {
    Start,
    End,
    FlexStart,
    FlexEnd,
    Center,
    Stretch,
    SpaceBetween,
    SpaceEvenly,
    SpaceAround,
}

#[derive(Clone, Copy, Debug, PartialEq, Eq, Structural)]
pub enum Overflow {
    Visible,
    Clip,
    Hidden,
    Scroll,
}

#[derive(Clone, Copy, Debug, PartialEq, Eq, Structural)]
pub enum LengthPercentage {
    Length(Scalar),
    Percent(Scalar),
}

#[derive(Clone, Copy, Debug, PartialEq, Eq, Structural)]
pub enum LengthPercentageAuto {
    Length(Scalar),
    Percent(Scalar),
    Auto,
}

#[derive(Clone, Copy, Debug, PartialEq, Eq, Structural)]
pub enum Dimension {
    Length(Scalar),
    Percent(Scalar),
    Auto,
    MinContent,
    MaxContent,
    FitContentPx(Scalar),
    FitContentPercent(Scalar),
    FitContent,
    Stretch,
    Content,
}

/// A width and a height.
#[derive(Clone, Copy, Debug, PartialEq, Eq)]
pub struct Extent<T> {
    pub width: T,
    pub height: T,
}

/// The four sides of a box.
#[derive(Clone, Copy, Debug, PartialEq, Eq)]
pub struct Sides<T> {
    pub left: T,
    pub right: T,
    pub top: T,
    pub bottom: T,
}

/// Overflow behavior per axis.
#[derive(Clone, Copy, Debug, PartialEq, Eq, Structural)]
pub struct OverflowAxes {
    pub x: Overflow,
    pub y: Overflow,
}

#[derive(Clone, Copy, Debug, PartialEq, Eq)]
pub struct Style {
    pub display: Display,
    pub position: Position,
    pub flex_direction: FlexDirection,
    pub flex_wrap: FlexWrap,
    pub justify_content: Option<AlignContent>,
    pub align_items: Option<AlignItems>,
    pub align_content: Option<AlignContent>,
    pub align_self: Option<AlignItems>,
    pub gap: Extent<LengthPercentage>,
    pub size: Extent<Dimension>,
    pub min_size: Extent<LengthPercentageAuto>,
    pub max_size: Extent<LengthPercentageAuto>,
    pub padding: Sides<LengthPercentage>,
    pub margin: Sides<LengthPercentageAuto>,
    pub border: Sides<LengthPercentage>,
    pub inset: Sides<LengthPercentageAuto>,
    pub flex_basis: Dimension,
    pub flex_grow: Scalar,
    pub flex_shrink: Scalar,
    pub aspect_ratio: Option<Scalar>,
    pub overflow: OverflowAxes,
}

impl Style {
    /// The style of an unstyled node.
    pub open spec fn initial() -> Style {
        let zero = LengthPercentage::Length(Scalar(0));
        let none = LengthPercentageAuto::Length(Scalar(0));
        let auto = LengthPercentageAuto::Auto;
        Style {
            display: Display::Flex,
            position: Position::Relative,
            flex_direction: FlexDirection::Row,
            flex_wrap: FlexWrap::NoWrap,
            justify_content: None,
            align_items: None,
            align_content: None,
            align_self: None,
            gap: Extent { width: zero, height: zero },
            size: Extent { width: Dimension::Auto, height: Dimension::Auto },
            min_size: Extent { width: auto, height: auto },
            max_size: Extent { width: auto, height: auto },
            padding: Sides { left: zero, right: zero, top: zero, bottom: zero },
            margin: Sides { left: none, right: none, top: none, bottom: none },
            border: Sides { left: zero, right: zero, top: zero, bottom: zero },
            inset: Sides { left: auto, right: auto, top: auto, bottom: auto },
            flex_basis: Dimension::Auto,
            flex_grow: Scalar(0),
            flex_shrink: Scalar(ONE_BITS),
            aspect_ratio: None,
            overflow: OverflowAxes { x: Overflow::Visible, y: Overflow::Visible },
        }
    }

    /// The style clips what overflows it.
    pub open spec fn clipping(self) -> bool {
        self.overflow.x != Overflow::Visible || self.overflow.y != Overflow::Visible
    }

    /// The style scrolls on some axis.
    pub open spec fn scrolling(self) -> bool {
        self.overflow.x == Overflow::Scroll || self.overflow.y == Overflow::Scroll
    }

    pub fn clips(&self) -> (r: bool)
        ensures
            r == self.clipping(),
    {
        self.overflow.x != Overflow::Visible || self.overflow.y != Overflow::Visible
    }

    pub fn scrolls(&self) -> (r: bool)
        ensures
            r == self.scrolling(),
    {
        self.overflow.x == Overflow::Scroll || self.overflow.y == Overflow::Scroll
    }
}

impl Default for Style {
    fn default() -> (r: Style)
        ensures
            r == Style::initial(),
    {
        let zero: LengthPercentage = LengthPercentage::Length(Scalar(0));
        let none: LengthPercentageAuto = LengthPercentageAuto::Length(Scalar(0));
        let auto: LengthPercentageAuto = LengthPercentageAuto::Auto;
        Style {
            display: Display::Flex,
            position: Position::Relative,
            flex_direction: FlexDirection::Row,
            flex_wrap: FlexWrap::NoWrap,
            justify_content: None,
            align_items: None,
            align_content: None,
            align_self: None,
            gap: Extent { width: zero, height: zero },
            size: Extent { width: Dimension::Auto, height: Dimension::Auto },
            min_size: Extent { width: auto, height: auto },
            max_size: Extent { width: auto, height: auto },
            padding: Sides { left: zero, right: zero, top: zero, bottom: zero },
            margin: Sides { left: none, right: none, top: none, bottom: none },
            border: Sides { left: zero, right: zero, top: zero, bottom: zero },
            inset: Sides { left: auto, right: auto, top: auto, bottom: auto },
            flex_basis: Dimension::Auto,
            flex_grow: Scalar(0),
            flex_shrink: Scalar(ONE_BITS),
            aspect_ratio: None,
            overflow: OverflowAxes { x: Overflow::Visible, y: Overflow::Visible },
        }
    }
}

/// A style clips where either axis shows no overflow, and scrolls where either
/// axis does; what scrolls clips.
pub proof fn law_overflow_clips(s: Style)
    ensures
        !s.clipping() <==> s.overflow.x == Overflow::Visible && s.overflow.y == Overflow::Visible,
        s.overflow.x == Overflow::Scroll ==> s.scrolling() && s.clipping(),
        s.overflow.y == Overflow::Scroll ==> s.scrolling() && s.clipping(),
        s.scrolling() ==> s.overflow.x == Overflow::Scroll || s.overflow.y == Overflow::Scroll,
{
}

/// An unstyled node is a row in the flow that neither wraps, clips nor scrolls,
/// as big as its content, without gaps, padding, borders or margins; it shrinks
/// where space is short, and does not grow.
pub proof fn law_unstyled_is_a_plain_row()
    ensures
        ({
            let s = Style::initial();
            &&& s.display == Display::Flex && s.position == Position::Relative
            &&& s.flex_direction == FlexDirection::Row && s.flex_wrap == FlexWrap::NoWrap
            &&& !s.clipping() && !s.scrolling()
            &&& s.justify_content is None && s.align_items is None && s.align_content is None
                && s.align_self is None && s.aspect_ratio is None
            &&& s.size.width is Auto && s.size.height is Auto && s.flex_basis is Auto
            &&& s.min_size.width is Auto && s.min_size.height is Auto
            &&& s.max_size.width is Auto && s.max_size.height is Auto
            &&& s.inset.left is Auto && s.inset.right is Auto && s.inset.top is Auto
                && s.inset.bottom is Auto
            &&& s.gap.width == LengthPercentage::Length(Scalar(0)) && s.gap.height == s.gap.width
            &&& s.padding == s.border
            &&& s.padding.left == s.gap.width && s.padding.right == s.gap.width && s.padding.top
                == s.gap.width && s.padding.bottom == s.gap.width
            &&& s.margin.left == LengthPercentageAuto::Length(Scalar(0)) && s.margin.right
                == s.margin.left && s.margin.top == s.margin.left && s.margin.bottom
                == s.margin.left
            &&& s.flex_grow == Scalar(0) && s.flex_shrink == Scalar(0x3F80_0000)
        }),
{
}

} // verus!
