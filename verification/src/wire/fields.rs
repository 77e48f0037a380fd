//! The style record: a presence mask, then the fields that it selects, in
//! schema order. Every field is a fixed tag byte plus a payload where the
//! encoding has one.

use super::bytes::{
    advanced, get_scalar, get_u8, holds, lemma_holds_split, lemma_scalar, lemma_u8, push_u32,
    push_u8, put_u32, put_u8, Parsed, Reader,
};
use crate::scalar::{Scalar, NAN_BITS};
use crate::style::{
    AlignContent, AlignItems, Dimension, Display, Extent, FlexDirection, FlexWrap, LengthPercentage,
    LengthPercentageAuto, Overflow, OverflowAxes, Position, Sides, Style,
};
use vstd::prelude::*;

verus! {

/// Number of fields in the schema. The field at index `k` is selected by bit
/// `k` of the mask.
pub const FIELD_COUNT: u32 = 21;

pub const DISPLAY: u32 = 0;

pub const POSITION: u32 = 1;

pub const FLEX_DIRECTION: u32 = 2;

pub const FLEX_WRAP: u32 = 3;

pub const JUSTIFY_CONTENT: u32 = 4;

pub const ALIGN_ITEMS: u32 = 5;

pub const ALIGN_CONTENT: u32 = 6;

pub const ALIGN_SELF: u32 = 7;

pub const GAP: u32 = 8;

pub const SIZE: u32 = 9;

pub const MIN_SIZE: u32 = 10;

pub const MAX_SIZE: u32 = 11;

pub const PADDING: u32 = 12;

pub const MARGIN: u32 = 13;

pub const BORDER: u32 = 14;

pub const INSET: u32 = 15;

pub const FLEX_BASIS: u32 = 16;

pub const FLEX_GROW: u32 = 17;

pub const FLEX_SHRINK: u32 = 18;

/// A NaN stands for "none".
pub const ASPECT_RATIO: u32 = 19;

pub const OVERFLOW: u32 = 20;

/// The mask that selects every field.
pub const ALL: u64 = 0x1F_FFFF;

/// Bit `k` of `mask`.
pub open spec fn selects(mask: u64, k: int) -> bool {
    (mask >> (k as u64)) & 1 == 1
}

// --------------------------------------------------------------- keyword tags

pub open spec fn display_tag(v: Display) -> u8 {
    match v {
        Display::Flex => 0,
        Display::Gone => 1,
    }
}

pub open spec fn display_of(tag: u8) -> Display {
    if tag == 1 {
        Display::Gone
    } else {
        Display::Flex
    }
}

fn tag_of_display(v: Display) -> (tag: u8)
    ensures
        tag == display_tag(v),
{
    match v {
        Display::Flex => 0,
        Display::Gone => 1,
    }
}

fn display_from(tag: u8) -> (v: Display)
    ensures
        v == display_of(tag),
{
    match tag {
        1 => Display::Gone,
        _ => Display::Flex,
    }
}

pub open spec fn place_tag(v: Position) -> u8 {
    match v {
        Position::Relative => 0,
        Position::Absolute => 1,
    }
}

pub open spec fn place_of(tag: u8) -> Position {
    if tag == 1 {
        Position::Absolute
    } else {
        Position::Relative
    }
}

fn tag_of_place(v: Position) -> (tag: u8)
    ensures
        tag == place_tag(v),
{
    match v {
        Position::Relative => 0,
        Position::Absolute => 1,
    }
}

fn place_from(tag: u8) -> (v: Position)
    ensures
        v == place_of(tag),
{
    match tag {
        1 => Position::Absolute,
        _ => Position::Relative,
    }
}

pub open spec fn direction_tag(v: FlexDirection) -> u8 {
    match v {
        FlexDirection::Row => 0,
        FlexDirection::Column => 1,
        FlexDirection::RowReverse => 2,
        FlexDirection::ColumnReverse => 3,
    }
}

pub open spec fn direction_of(tag: u8) -> FlexDirection {
    if tag == 1 {
        FlexDirection::Column
    } else if tag == 2 {
        FlexDirection::RowReverse
    } else if tag == 3 {
        FlexDirection::ColumnReverse
    } else {
        FlexDirection::Row
    }
}

fn tag_of_direction(v: FlexDirection) -> (tag: u8)
    ensures
        tag == direction_tag(v),
{
    match v {
        FlexDirection::Row => 0,
        FlexDirection::Column => 1,
        FlexDirection::RowReverse => 2,
        FlexDirection::ColumnReverse => 3,
    }
}

fn direction_from(tag: u8) -> (v: FlexDirection)
    ensures
        v == direction_of(tag),
{
    match tag {
        1 => FlexDirection::Column,
        2 => FlexDirection::RowReverse,
        3 => FlexDirection::ColumnReverse,
        _ => FlexDirection::Row,
    }
}

pub open spec fn wrap_tag(v: FlexWrap) -> u8 {
    match v {
        FlexWrap::NoWrap => 0,
        FlexWrap::Wrap => 1,
        FlexWrap::WrapReverse => 2,
    }
}

pub open spec fn wrap_of(tag: u8) -> FlexWrap {
    if tag == 1 {
        FlexWrap::Wrap
    } else if tag == 2 {
        FlexWrap::WrapReverse
    } else {
        FlexWrap::NoWrap
    }
}

fn tag_of_wrap(v: FlexWrap) -> (tag: u8)
    ensures
        tag == wrap_tag(v),
{
    match v {
        FlexWrap::NoWrap => 0,
        FlexWrap::Wrap => 1,
        FlexWrap::WrapReverse => 2,
    }
}

fn wrap_from(tag: u8) -> (v: FlexWrap)
    ensures
        v == wrap_of(tag),
{
    match tag {
        1 => FlexWrap::Wrap,
        2 => FlexWrap::WrapReverse,
        _ => FlexWrap::NoWrap,
    }
}

pub open spec fn overflow_tag(v: Overflow) -> u8 {
    match v {
        Overflow::Visible => 0,
        Overflow::Clip => 1,
        Overflow::Hidden => 2,
        Overflow::Scroll => 3,
    }
}

pub open spec fn overflow_of(tag: u8) -> Overflow {
    if tag == 1 {
        Overflow::Clip
    } else if tag == 2 {
        Overflow::Hidden
    } else if tag == 3 {
        Overflow::Scroll
    } else {
        Overflow::Visible
    }
}

fn tag_of_overflow(v: Overflow) -> (tag: u8)
    ensures
        tag == overflow_tag(v),
{
    match v {
        Overflow::Visible => 0,
        Overflow::Clip => 1,
        Overflow::Hidden => 2,
        Overflow::Scroll => 3,
    }
}

fn overflow_from(tag: u8) -> (v: Overflow)
    ensures
        v == overflow_of(tag),
{
    match tag {
        1 => Overflow::Clip,
        2 => Overflow::Hidden,
        3 => Overflow::Scroll,
        _ => Overflow::Visible,
    }
}

pub open spec fn items_tag(v: Option<AlignItems>) -> u8 {
    match v {
        None => 0xFF,
        Some(AlignItems::Start) => 0,
        Some(AlignItems::End) => 1,
        Some(AlignItems::FlexStart) => 2,
        Some(AlignItems::FlexEnd) => 3,
        Some(AlignItems::SelfStart) => 4,
        Some(AlignItems::SelfEnd) => 5,
        Some(AlignItems::Center) => 6,
        Some(AlignItems::Baseline) => 7,
        Some(AlignItems::Stretch) => 8,
    }
}

pub open spec fn items_of(tag: u8) -> Option<AlignItems> {
    if tag == 0 {
        Some(AlignItems::Start)
    } else if tag == 1 {
        Some(AlignItems::End)
    } else if tag == 2 {
        Some(AlignItems::FlexStart)
    } else if tag == 3 {
        Some(AlignItems::FlexEnd)
    } else if tag == 4 {
        Some(AlignItems::SelfStart)
    } else if tag == 5 {
        Some(AlignItems::SelfEnd)
    } else if tag == 6 {
        Some(AlignItems::Center)
    } else if tag == 7 {
        Some(AlignItems::Baseline)
    } else if tag == 8 {
        Some(AlignItems::Stretch)
    } else {
        None
    }
}

fn tag_of_items(v: Option<AlignItems>) -> (tag: u8)
    ensures
        tag == items_tag(v),
{
    match v {
        None => 0xFF,
        Some(AlignItems::Start) => 0,
        Some(AlignItems::End) => 1,
        Some(AlignItems::FlexStart) => 2,
        Some(AlignItems::FlexEnd) => 3,
        Some(AlignItems::SelfStart) => 4,
        Some(AlignItems::SelfEnd) => 5,
        Some(AlignItems::Center) => 6,
        Some(AlignItems::Baseline) => 7,
        Some(AlignItems::Stretch) => 8,
    }
}

fn items_from(tag: u8) -> (v: Option<AlignItems>)
    ensures
        v == items_of(tag),
{
    match tag {
        0 => Some(AlignItems::Start),
        1 => Some(AlignItems::End),
        2 => Some(AlignItems::FlexStart),
        3 => Some(AlignItems::FlexEnd),
        4 => Some(AlignItems::SelfStart),
        5 => Some(AlignItems::SelfEnd),
        6 => Some(AlignItems::Center),
        7 => Some(AlignItems::Baseline),
        8 => Some(AlignItems::Stretch),
        _ => None,
    }
}

pub open spec fn content_tag(v: Option<AlignContent>) -> u8 {
    match v {
        None => 0xFF,
        Some(AlignContent::Start) => 0,
        Some(AlignContent::End) => 1,
        Some(AlignContent::FlexStart) => 2,
        Some(AlignContent::FlexEnd) => 3,
        Some(AlignContent::Center) => 6,
        Some(AlignContent::Stretch) => 8,
        Some(AlignContent::SpaceBetween) => 9,
        Some(AlignContent::SpaceEvenly) => 10,
        Some(AlignContent::SpaceAround) => 11,
    }
}

pub open spec fn content_of(tag: u8) -> Option<AlignContent> {
    if tag == 0 {
        Some(AlignContent::Start)
    } else if tag == 1 {
        Some(AlignContent::End)
    } else if tag == 2 {
        Some(AlignContent::FlexStart)
    } else if tag == 3 {
        Some(AlignContent::FlexEnd)
    } else if tag == 6 {
        Some(AlignContent::Center)
    } else if tag == 8 {
        Some(AlignContent::Stretch)
    } else if tag == 9 {
        Some(AlignContent::SpaceBetween)
    } else if tag == 10 {
        Some(AlignContent::SpaceEvenly)
    } else if tag == 11 {
        Some(AlignContent::SpaceAround)
    } else {
        None
    }
}

fn tag_of_content(v: Option<AlignContent>) -> (tag: u8)
    ensures
        tag == content_tag(v),
{
    match v {
        None => 0xFF,
        Some(AlignContent::Start) => 0,
        Some(AlignContent::End) => 1,
        Some(AlignContent::FlexStart) => 2,
        Some(AlignContent::FlexEnd) => 3,
        Some(AlignContent::Center) => 6,
        Some(AlignContent::Stretch) => 8,
        Some(AlignContent::SpaceBetween) => 9,
        Some(AlignContent::SpaceEvenly) => 10,
        Some(AlignContent::SpaceAround) => 11,
    }
}

fn content_from(tag: u8) -> (v: Option<AlignContent>)
    ensures
        v == content_of(tag),
{
    match tag {
        0 => Some(AlignContent::Start),
        1 => Some(AlignContent::End),
        2 => Some(AlignContent::FlexStart),
        3 => Some(AlignContent::FlexEnd),
        6 => Some(AlignContent::Center),
        8 => Some(AlignContent::Stretch),
        9 => Some(AlignContent::SpaceBetween),
        10 => Some(AlignContent::SpaceEvenly),
        11 => Some(AlignContent::SpaceAround),
        _ => None,
    }
}

// --------------------------------------------------------------- dimensions

/// Tag 0 length, 1 percent.
pub open spec fn put_lp(v: LengthPercentage) -> Seq<u8> {
    match v {
        LengthPercentage::Length(f) => put_u8(0) + put_u32(f.0),
        LengthPercentage::Percent(f) => put_u8(1) + put_u32(f.0),
    }
}

/// Any other tag is refused.
pub open spec fn get_lp(b: Seq<u8>, p: int) -> Parsed<LengthPercentage> {
    match get_u8(b, p) {
        None => None,
        Some((tag, p1)) => if tag > 1 {
            None
        } else {
            match get_scalar(b, p1) {
                None => None,
                Some((f, p2)) => Some(
                    (
                        if tag == 0 {
                            LengthPercentage::Length(f)
                        } else {
                            LengthPercentage::Percent(f)
                        },
                        p2,
                    ),
                ),
            }
        },
    }
}

/// Tag 0 length, 1 percent, 2 auto.
pub open spec fn put_lpa(v: LengthPercentageAuto) -> Seq<u8> {
    match v {
        LengthPercentageAuto::Length(f) => put_u8(0) + put_u32(f.0),
        LengthPercentageAuto::Percent(f) => put_u8(1) + put_u32(f.0),
        LengthPercentageAuto::Auto => put_u8(2),
    }
}

/// Any other tag reads as auto.
pub open spec fn get_lpa(b: Seq<u8>, p: int) -> Parsed<LengthPercentageAuto> {
    match get_u8(b, p) {
        None => None,
        Some((tag, p1)) => if tag > 1 {
            Some((LengthPercentageAuto::Auto, p1))
        } else {
            match get_scalar(b, p1) {
                None => None,
                Some((f, p2)) => Some(
                    (
                        if tag == 0 {
                            LengthPercentageAuto::Length(f)
                        } else {
                            LengthPercentageAuto::Percent(f)
                        },
                        p2,
                    ),
                ),
            }
        },
    }
}

/// Tags 0 to 9, in the order of the variants; four of them carry a number.
pub open spec fn put_dim(v: Dimension) -> Seq<u8> {
    match v {
        Dimension::Length(f) => put_u8(0) + put_u32(f.0),
        Dimension::Percent(f) => put_u8(1) + put_u32(f.0),
        Dimension::Auto => put_u8(2),
        Dimension::MinContent => put_u8(3),
        Dimension::MaxContent => put_u8(4),
        Dimension::FitContentPx(f) => put_u8(5) + put_u32(f.0),
        Dimension::FitContentPercent(f) => put_u8(6) + put_u32(f.0),
        Dimension::FitContent => put_u8(7),
        Dimension::Stretch => put_u8(8),
        Dimension::Content => put_u8(9),
    }
}

/// Any other tag reads as content.
pub open spec fn get_dim(b: Seq<u8>, p: int) -> Parsed<Dimension> {
    match get_u8(b, p) {
        None => None,
        Some((tag, p1)) => if tag == 0 || tag == 1 || tag == 5 || tag == 6 {
            match get_scalar(b, p1) {
                None => None,
                Some((f, p2)) => Some(
                    (
                        if tag == 0 {
                            Dimension::Length(f)
                        } else if tag == 1 {
                            Dimension::Percent(f)
                        } else if tag == 5 {
                            Dimension::FitContentPx(f)
                        } else {
                            Dimension::FitContentPercent(f)
                        },
                        p2,
                    ),
                ),
            }
        } else {
            Some(
                (
                    if tag == 2 {
                        Dimension::Auto
                    } else if tag == 3 {
                        Dimension::MinContent
                    } else if tag == 4 {
                        Dimension::MaxContent
                    } else if tag == 7 {
                        Dimension::FitContent
                    } else if tag == 8 {
                        Dimension::Stretch
                    } else {
                        Dimension::Content
                    },
                    p1,
                ),
            )
        },
    }
}

pub open spec fn put_lp_pair(v: Extent<LengthPercentage>) -> Seq<u8> {
    put_lp(v.width) + put_lp(v.height)
}

pub open spec fn get_lp_pair(b: Seq<u8>, p: int) -> Parsed<Extent<LengthPercentage>> {
    match get_lp(b, p) {
        None => None,
        Some((width, p1)) => match get_lp(b, p1) {
            None => None,
            Some((height, p2)) => Some((Extent { width, height }, p2)),
        },
    }
}

pub open spec fn put_lpa_pair(v: Extent<LengthPercentageAuto>) -> Seq<u8> {
    put_lpa(v.width) + put_lpa(v.height)
}

pub open spec fn get_lpa_pair(b: Seq<u8>, p: int) -> Parsed<Extent<LengthPercentageAuto>> {
    match get_lpa(b, p) {
        None => None,
        Some((width, p1)) => match get_lpa(b, p1) {
            None => None,
            Some((height, p2)) => Some((Extent { width, height }, p2)),
        },
    }
}

pub open spec fn put_dim_pair(v: Extent<Dimension>) -> Seq<u8> {
    put_dim(v.width) + put_dim(v.height)
}

pub open spec fn get_dim_pair(b: Seq<u8>, p: int) -> Parsed<Extent<Dimension>> {
    match get_dim(b, p) {
        None => None,
        Some((width, p1)) => match get_dim(b, p1) {
            None => None,
            Some((height, p2)) => Some((Extent { width, height }, p2)),
        },
    }
}

/// Left, right, top, bottom.
pub open spec fn put_lp_sides(v: Sides<LengthPercentage>) -> Seq<u8> {
    put_lp(v.left) + (put_lp(v.right) + (put_lp(v.top) + put_lp(v.bottom)))
}

pub open spec fn get_lp_sides(b: Seq<u8>, p: int) -> Parsed<Sides<LengthPercentage>> {
    match get_lp(b, p) {
        None => None,
        Some((left, p1)) => match get_lp(b, p1) {
            None => None,
            Some((right, p2)) => match get_lp(b, p2) {
                None => None,
                Some((top, p3)) => match get_lp(b, p3) {
                    None => None,
                    Some((bottom, p4)) => Some((Sides { left, right, top, bottom }, p4)),
                },
            },
        },
    }
}

/// Left, right, top, bottom.
pub open spec fn put_lpa_sides(v: Sides<LengthPercentageAuto>) -> Seq<u8> {
    put_lpa(v.left) + (put_lpa(v.right) + (put_lpa(v.top) + put_lpa(v.bottom)))
}

pub open spec fn get_lpa_sides(b: Seq<u8>, p: int) -> Parsed<Sides<LengthPercentageAuto>> {
    match get_lpa(b, p) {
        None => None,
        Some((left, p1)) => match get_lpa(b, p1) {
            None => None,
            Some((right, p2)) => match get_lpa(b, p2) {
                None => None,
                Some((top, p3)) => match get_lpa(b, p3) {
                    None => None,
                    Some((bottom, p4)) => Some((Sides { left, right, top, bottom }, p4)),
                },
            },
        },
    }
}

/// A missing aspect ratio is written as a NaN, and a NaN reads as missing.
pub open spec fn ratio_bits(v: Option<Scalar>) -> u32 {
    match v {
        None => NAN_BITS,
        Some(f) => f.0,
    }
}

pub open spec fn ratio_of(f: Scalar) -> Option<Scalar> {
    if f.nan() {
        None
    } else {
        Some(f)
    }
}

// ------------------------------------------------------------------- fields

/// The bytes of field `k` of a style.
pub open spec fn put_field(k: int, s: Style) -> Seq<u8> {
    if k == DISPLAY {
        put_u8(display_tag(s.display))
    } else if k == POSITION {
        put_u8(place_tag(s.position))
    } else if k == FLEX_DIRECTION {
        put_u8(direction_tag(s.flex_direction))
    } else if k == FLEX_WRAP {
        put_u8(wrap_tag(s.flex_wrap))
    } else if k == JUSTIFY_CONTENT {
        put_u8(content_tag(s.justify_content))
    } else if k == ALIGN_ITEMS {
        put_u8(items_tag(s.align_items))
    } else if k == ALIGN_CONTENT {
        put_u8(content_tag(s.align_content))
    } else if k == ALIGN_SELF {
        put_u8(items_tag(s.align_self))
    } else if k == GAP {
        put_lp_pair(s.gap)
    } else if k == SIZE {
        put_dim_pair(s.size)
    } else if k == MIN_SIZE {
        put_lpa_pair(s.min_size)
    } else if k == MAX_SIZE {
        put_lpa_pair(s.max_size)
    } else if k == PADDING {
        put_lp_sides(s.padding)
    } else if k == MARGIN {
        put_lpa_sides(s.margin)
    } else if k == BORDER {
        put_lp_sides(s.border)
    } else if k == INSET {
        put_lpa_sides(s.inset)
    } else if k == FLEX_BASIS {
        put_dim(s.flex_basis)
    } else if k == FLEX_GROW {
        put_u32(s.flex_grow.0)
    } else if k == FLEX_SHRINK {
        put_u32(s.flex_shrink.0)
    } else if k == ASPECT_RATIO {
        put_u32(ratio_bits(s.aspect_ratio))
    } else if k == OVERFLOW {
        put_u8(overflow_tag(s.overflow.x)) + put_u8(overflow_tag(s.overflow.y))
    } else {
        Seq::empty()
    }
}

/// `s` with field `k` taken from `from`.
pub open spec fn with_field(k: int, s: Style, from: Style) -> Style {
    if k == DISPLAY {
        Style { display: from.display, ..s }
    } else if k == POSITION {
        Style { position: from.position, ..s }
    } else if k == FLEX_DIRECTION {
        Style { flex_direction: from.flex_direction, ..s }
    } else if k == FLEX_WRAP {
        Style { flex_wrap: from.flex_wrap, ..s }
    } else if k == JUSTIFY_CONTENT {
        Style { justify_content: from.justify_content, ..s }
    } else if k == ALIGN_ITEMS {
        Style { align_items: from.align_items, ..s }
    } else if k == ALIGN_CONTENT {
        Style { align_content: from.align_content, ..s }
    } else if k == ALIGN_SELF {
        Style { align_self: from.align_self, ..s }
    } else if k == GAP {
        Style { gap: from.gap, ..s }
    } else if k == SIZE {
        Style { size: from.size, ..s }
    } else if k == MIN_SIZE {
        Style { min_size: from.min_size, ..s }
    } else if k == MAX_SIZE {
        Style { max_size: from.max_size, ..s }
    } else if k == PADDING {
        Style { padding: from.padding, ..s }
    } else if k == MARGIN {
        Style { margin: from.margin, ..s }
    } else if k == BORDER {
        Style { border: from.border, ..s }
    } else if k == INSET {
        Style { inset: from.inset, ..s }
    } else if k == FLEX_BASIS {
        Style { flex_basis: from.flex_basis, ..s }
    } else if k == FLEX_GROW {
        Style { flex_grow: from.flex_grow, ..s }
    } else if k == FLEX_SHRINK {
        Style { flex_shrink: from.flex_shrink, ..s }
    } else if k == ASPECT_RATIO {
        Style { aspect_ratio: from.aspect_ratio, ..s }
    } else if k == OVERFLOW {
        Style { overflow: from.overflow, ..s }
    } else {
        s
    }
}

/// Reads field `k` into a style.
pub open spec fn get_field(k: int, b: Seq<u8>, p: int, s: Style) -> Parsed<Style> {
    if k == DISPLAY {
        match get_u8(b, p) {
            None => None,
            Some((v, p1)) => Some((Style { display: display_of(v), ..s }, p1)),
        }
    } else if k == POSITION {
        match get_u8(b, p) {
            None => None,
            Some((v, p1)) => Some((Style { position: place_of(v), ..s }, p1)),
        }
    } else if k == FLEX_DIRECTION {
        match get_u8(b, p) {
            None => None,
            Some((v, p1)) => Some((Style { flex_direction: direction_of(v), ..s }, p1)),
        }
    } else if k == FLEX_WRAP {
        match get_u8(b, p) {
            None => None,
            Some((v, p1)) => Some((Style { flex_wrap: wrap_of(v), ..s }, p1)),
        }
    } else if k == JUSTIFY_CONTENT {
        match get_u8(b, p) {
            None => None,
            Some((v, p1)) => Some((Style { justify_content: content_of(v), ..s }, p1)),
        }
    } else if k == ALIGN_ITEMS {
        match get_u8(b, p) {
            None => None,
            Some((v, p1)) => Some((Style { align_items: items_of(v), ..s }, p1)),
        }
    } else if k == ALIGN_CONTENT {
        match get_u8(b, p) {
            None => None,
            Some((v, p1)) => Some((Style { align_content: content_of(v), ..s }, p1)),
        }
    } else if k == ALIGN_SELF {
        match get_u8(b, p) {
            None => None,
            Some((v, p1)) => Some((Style { align_self: items_of(v), ..s }, p1)),
        }
    } else if k == GAP {
        match get_lp_pair(b, p) {
            None => None,
            Some((v, p1)) => Some((Style { gap: v, ..s }, p1)),
        }
    } else if k == SIZE {
        match get_dim_pair(b, p) {
            None => None,
            Some((v, p1)) => Some((Style { size: v, ..s }, p1)),
        }
    } else if k == MIN_SIZE {
        match get_lpa_pair(b, p) {
            None => None,
            Some((v, p1)) => Some((Style { min_size: v, ..s }, p1)),
        }
    } else if k == MAX_SIZE {
        match get_lpa_pair(b, p) {
            None => None,
            Some((v, p1)) => Some((Style { max_size: v, ..s }, p1)),
        }
    } else if k == PADDING {
        match get_lp_sides(b, p) {
            None => None,
            Some((v, p1)) => Some((Style { padding: v, ..s }, p1)),
        }
    } else if k == MARGIN {
        match get_lpa_sides(b, p) {
            None => None,
            Some((v, p1)) => Some((Style { margin: v, ..s }, p1)),
        }
    } else if k == BORDER {
        match get_lp_sides(b, p) {
            None => None,
            Some((v, p1)) => Some((Style { border: v, ..s }, p1)),
        }
    } else if k == INSET {
        match get_lpa_sides(b, p) {
            None => None,
            Some((v, p1)) => Some((Style { inset: v, ..s }, p1)),
        }
    } else if k == FLEX_BASIS {
        match get_dim(b, p) {
            None => None,
            Some((v, p1)) => Some((Style { flex_basis: v, ..s }, p1)),
        }
    } else if k == FLEX_GROW {
        match get_scalar(b, p) {
            None => None,
            Some((v, p1)) => Some((Style { flex_grow: v, ..s }, p1)),
        }
    } else if k == FLEX_SHRINK {
        match get_scalar(b, p) {
            None => None,
            Some((v, p1)) => Some((Style { flex_shrink: v, ..s }, p1)),
        }
    } else if k == ASPECT_RATIO {
        match get_scalar(b, p) {
            None => None,
            Some((v, p1)) => Some((Style { aspect_ratio: ratio_of(v), ..s }, p1)),
        }
    } else if k == OVERFLOW {
        match get_u8(b, p) {
            None => None,
            Some((x, p1)) => match get_u8(b, p1) {
                None => None,
                Some((y, p2)) => Some(
                    (
                        Style {
                            overflow: OverflowAxes { x: overflow_of(x), y: overflow_of(y) },
                            ..s
                        },
                        p2,
                    ),
                ),
            },
        }
    } else {
        Some((s, p))
    }
}

/// The bytes of the fields from `k` on that `mask` selects.
pub open spec fn put_fields(k: int, s: Style, mask: u64) -> Seq<u8>
    decreases FIELD_COUNT - k,
{
    if k >= FIELD_COUNT {
        Seq::empty()
    } else if selects(mask, k) {
        put_field(k, s) + put_fields(k + 1, s, mask)
    } else {
        put_fields(k + 1, s, mask)
    }
}

/// Reads the fields from `k` on that `mask` selects into a style.
pub open spec fn get_fields(k: int, b: Seq<u8>, p: int, s: Style, mask: u64) -> Parsed<Style>
    decreases FIELD_COUNT - k,
{
    if k >= FIELD_COUNT {
        Some((s, p))
    } else if selects(mask, k) {
        match get_field(k, b, p, s) {
            None => None,
            Some((t, p1)) => get_fields(k + 1, b, p1, t, mask),
        }
    } else {
        get_fields(k + 1, b, p, s, mask)
    }
}

// ---------------------------------------------------------------- round trips

/// A style as it reads back: an aspect ratio that is a NaN is missing, and all
/// else is as written.
pub open spec fn received(s: Style) -> Style {
    Style {
        aspect_ratio: match s.aspect_ratio {
            Some(f) => ratio_of(f),
            None => None,
        },
        ..s
    }
}

/// True of a style that the wire carries unchanged.
pub open spec fn carried(s: Style) -> bool {
    s.aspect_ratio matches Some(f) ==> !f.nan()
}

/// True of a field from `k` on that the mask selects.
pub open spec fn taken(k: int, mask: u64, field: int) -> bool {
    k <= field && selects(mask, field)
}

/// `s` with the fields from `k` on that the mask selects taken from `from`.
pub open spec fn mixed(k: int, s: Style, from: Style, mask: u64) -> Style {
    Style {
        display: if taken(k, mask, DISPLAY as int) {
            from.display
        } else {
            s.display
        },
        position: if taken(k, mask, POSITION as int) {
            from.position
        } else {
            s.position
        },
        flex_direction: if taken(k, mask, FLEX_DIRECTION as int) {
            from.flex_direction
        } else {
            s.flex_direction
        },
        flex_wrap: if taken(k, mask, FLEX_WRAP as int) {
            from.flex_wrap
        } else {
            s.flex_wrap
        },
        justify_content: if taken(k, mask, JUSTIFY_CONTENT as int) {
            from.justify_content
        } else {
            s.justify_content
        },
        align_items: if taken(k, mask, ALIGN_ITEMS as int) {
            from.align_items
        } else {
            s.align_items
        },
        align_content: if taken(k, mask, ALIGN_CONTENT as int) {
            from.align_content
        } else {
            s.align_content
        },
        align_self: if taken(k, mask, ALIGN_SELF as int) {
            from.align_self
        } else {
            s.align_self
        },
        gap: if taken(k, mask, GAP as int) {
            from.gap
        } else {
            s.gap
        },
        size: if taken(k, mask, SIZE as int) {
            from.size
        } else {
            s.size
        },
        min_size: if taken(k, mask, MIN_SIZE as int) {
            from.min_size
        } else {
            s.min_size
        },
        max_size: if taken(k, mask, MAX_SIZE as int) {
            from.max_size
        } else {
            s.max_size
        },
        padding: if taken(k, mask, PADDING as int) {
            from.padding
        } else {
            s.padding
        },
        margin: if taken(k, mask, MARGIN as int) {
            from.margin
        } else {
            s.margin
        },
        border: if taken(k, mask, BORDER as int) {
            from.border
        } else {
            s.border
        },
        inset: if taken(k, mask, INSET as int) {
            from.inset
        } else {
            s.inset
        },
        flex_basis: if taken(k, mask, FLEX_BASIS as int) {
            from.flex_basis
        } else {
            s.flex_basis
        },
        flex_grow: if taken(k, mask, FLEX_GROW as int) {
            from.flex_grow
        } else {
            s.flex_grow
        },
        flex_shrink: if taken(k, mask, FLEX_SHRINK as int) {
            from.flex_shrink
        } else {
            s.flex_shrink
        },
        aspect_ratio: if taken(k, mask, ASPECT_RATIO as int) {
            from.aspect_ratio
        } else {
            s.aspect_ratio
        },
        overflow: if taken(k, mask, OVERFLOW as int) {
            from.overflow
        } else {
            s.overflow
        },
    }
}

proof fn lemma_lp(b: Seq<u8>, p: int, v: LengthPercentage)
    requires
        holds(b, p, put_lp(v)),
    ensures
        get_lp(b, p) == Some((v, p + put_lp(v).len())),
{
    match v {
        LengthPercentage::Length(f) => {
            lemma_holds_split(b, p, put_u8(0), put_u32(f.0));
            lemma_u8(b, p, 0);
            lemma_scalar(b, p + 1, f);
        },
        LengthPercentage::Percent(f) => {
            lemma_holds_split(b, p, put_u8(1), put_u32(f.0));
            lemma_u8(b, p, 1);
            lemma_scalar(b, p + 1, f);
        },
    }
}

proof fn lemma_lpa(b: Seq<u8>, p: int, v: LengthPercentageAuto)
    requires
        holds(b, p, put_lpa(v)),
    ensures
        get_lpa(b, p) == Some((v, p + put_lpa(v).len())),
{
    match v {
        LengthPercentageAuto::Length(f) => {
            lemma_holds_split(b, p, put_u8(0), put_u32(f.0));
            lemma_u8(b, p, 0);
            lemma_scalar(b, p + 1, f);
        },
        LengthPercentageAuto::Percent(f) => {
            lemma_holds_split(b, p, put_u8(1), put_u32(f.0));
            lemma_u8(b, p, 1);
            lemma_scalar(b, p + 1, f);
        },
        LengthPercentageAuto::Auto => lemma_u8(b, p, 2),
    }
}

proof fn lemma_dim(b: Seq<u8>, p: int, v: Dimension)
    requires
        holds(b, p, put_dim(v)),
    ensures
        get_dim(b, p) == Some((v, p + put_dim(v).len())),
{
    match v {
        Dimension::Length(f) => {
            lemma_holds_split(b, p, put_u8(0), put_u32(f.0));
            lemma_u8(b, p, 0);
            lemma_scalar(b, p + 1, f);
        },
        Dimension::Percent(f) => {
            lemma_holds_split(b, p, put_u8(1), put_u32(f.0));
            lemma_u8(b, p, 1);
            lemma_scalar(b, p + 1, f);
        },
        Dimension::Auto => lemma_u8(b, p, 2),
        Dimension::MinContent => lemma_u8(b, p, 3),
        Dimension::MaxContent => lemma_u8(b, p, 4),
        Dimension::FitContentPx(f) => {
            lemma_holds_split(b, p, put_u8(5), put_u32(f.0));
            lemma_u8(b, p, 5);
            lemma_scalar(b, p + 1, f);
        },
        Dimension::FitContentPercent(f) => {
            lemma_holds_split(b, p, put_u8(6), put_u32(f.0));
            lemma_u8(b, p, 6);
            lemma_scalar(b, p + 1, f);
        },
        Dimension::FitContent => lemma_u8(b, p, 7),
        Dimension::Stretch => lemma_u8(b, p, 8),
        Dimension::Content => lemma_u8(b, p, 9),
    }
}

proof fn lemma_lp_pair(b: Seq<u8>, p: int, v: Extent<LengthPercentage>)
    requires
        holds(b, p, put_lp_pair(v)),
    ensures
        get_lp_pair(b, p) == Some((v, p + put_lp_pair(v).len())),
{
    lemma_holds_split(b, p, put_lp(v.width), put_lp(v.height));
    lemma_lp(b, p, v.width);
    lemma_lp(b, p + put_lp(v.width).len(), v.height);
}

proof fn lemma_lpa_pair(b: Seq<u8>, p: int, v: Extent<LengthPercentageAuto>)
    requires
        holds(b, p, put_lpa_pair(v)),
    ensures
        get_lpa_pair(b, p) == Some((v, p + put_lpa_pair(v).len())),
{
    lemma_holds_split(b, p, put_lpa(v.width), put_lpa(v.height));
    lemma_lpa(b, p, v.width);
    lemma_lpa(b, p + put_lpa(v.width).len(), v.height);
}

proof fn lemma_dim_pair(b: Seq<u8>, p: int, v: Extent<Dimension>)
    requires
        holds(b, p, put_dim_pair(v)),
    ensures
        get_dim_pair(b, p) == Some((v, p + put_dim_pair(v).len())),
{
    lemma_holds_split(b, p, put_dim(v.width), put_dim(v.height));
    lemma_dim(b, p, v.width);
    lemma_dim(b, p + put_dim(v.width).len(), v.height);
}

proof fn lemma_lp_sides(b: Seq<u8>, p: int, v: Sides<LengthPercentage>)
    requires
        holds(b, p, put_lp_sides(v)),
    ensures
        get_lp_sides(b, p) == Some((v, p + put_lp_sides(v).len())),
{
    let l = put_lp(v.left);
    let r = put_lp(v.right);
    let t = put_lp(v.top);
    let d = put_lp(v.bottom);
    lemma_holds_split(b, p, l, r + (t + d));
    lemma_holds_split(b, p + l.len(), r, t + d);
    lemma_holds_split(b, p + l.len() + r.len(), t, d);
    lemma_lp(b, p, v.left);
    lemma_lp(b, p + l.len(), v.right);
    lemma_lp(b, p + l.len() + r.len(), v.top);
    lemma_lp(b, p + l.len() + r.len() + t.len(), v.bottom);
}

proof fn lemma_lpa_sides(b: Seq<u8>, p: int, v: Sides<LengthPercentageAuto>)
    requires
        holds(b, p, put_lpa_sides(v)),
    ensures
        get_lpa_sides(b, p) == Some((v, p + put_lpa_sides(v).len())),
{
    let l = put_lpa(v.left);
    let r = put_lpa(v.right);
    let t = put_lpa(v.top);
    let d = put_lpa(v.bottom);
    lemma_holds_split(b, p, l, r + (t + d));
    lemma_holds_split(b, p + l.len(), r, t + d);
    lemma_holds_split(b, p + l.len() + r.len(), t, d);
    lemma_lpa(b, p, v.left);
    lemma_lpa(b, p + l.len(), v.right);
    lemma_lpa(b, p + l.len() + r.len(), v.top);
    lemma_lpa(b, p + l.len() + r.len() + t.len(), v.bottom);
}

/// Reading the bytes of a field gives that field.
proof fn lemma_field(k: int, b: Seq<u8>, p: int, s: Style, from: Style)
    requires
        0 <= k < FIELD_COUNT,
        holds(b, p, put_field(k, from)),
    ensures
        get_field(k, b, p, s) == Some(
            (with_field(k, s, received(from)), p + put_field(k, from).len()),
        ),
{
    if k == DISPLAY {
        lemma_u8(b, p, display_tag(from.display));
    } else if k == POSITION {
        lemma_u8(b, p, place_tag(from.position));
    } else if k == FLEX_DIRECTION {
        lemma_u8(b, p, direction_tag(from.flex_direction));
    } else if k == FLEX_WRAP {
        lemma_u8(b, p, wrap_tag(from.flex_wrap));
    } else if k == JUSTIFY_CONTENT {
        lemma_u8(b, p, content_tag(from.justify_content));
    } else if k == ALIGN_ITEMS {
        lemma_u8(b, p, items_tag(from.align_items));
    } else if k == ALIGN_CONTENT {
        lemma_u8(b, p, content_tag(from.align_content));
    } else if k == ALIGN_SELF {
        lemma_u8(b, p, items_tag(from.align_self));
    } else if k == GAP {
        lemma_lp_pair(b, p, from.gap);
    } else if k == SIZE {
        lemma_dim_pair(b, p, from.size);
    } else if k == MIN_SIZE {
        lemma_lpa_pair(b, p, from.min_size);
    } else if k == MAX_SIZE {
        lemma_lpa_pair(b, p, from.max_size);
    } else if k == PADDING {
        lemma_lp_sides(b, p, from.padding);
    } else if k == MARGIN {
        lemma_lpa_sides(b, p, from.margin);
    } else if k == BORDER {
        lemma_lp_sides(b, p, from.border);
    } else if k == INSET {
        lemma_lpa_sides(b, p, from.inset);
    } else if k == FLEX_BASIS {
        lemma_dim(b, p, from.flex_basis);
    } else if k == FLEX_GROW {
        lemma_scalar(b, p, from.flex_grow);
    } else if k == FLEX_SHRINK {
        lemma_scalar(b, p, from.flex_shrink);
    } else if k == ASPECT_RATIO {
        lemma_scalar(b, p, Scalar(ratio_bits(from.aspect_ratio)));
    } else if k == OVERFLOW {
        let x = overflow_tag(from.overflow.x);
        let y = overflow_tag(from.overflow.y);
        lemma_holds_split(b, p, put_u8(x), put_u8(y));
        lemma_u8(b, p, x);
        lemma_u8(b, p + 1, y);
    }
}

/// The first field from `k` on is taken where the mask selects it.
#[verifier::rlimit(40)]
proof fn lemma_mixed(k: int, s: Style, from: Style, mask: u64)
    requires
        0 <= k < FIELD_COUNT,
    ensures
        mixed(k, s, from, mask) == mixed(
            k + 1,
            if selects(mask, k) {
                with_field(k, s, from)
            } else {
                s
            },
            from,
            mask,
        ),
{
    let t = if selects(mask, k) {
        with_field(k, s, from)
    } else {
        s
    };
    let a = mixed(k, s, from, mask);
    let b = mixed(k + 1, t, from, mask);
    assert(a.display == b.display);
    assert(a.position == b.position);
    assert(a.flex_direction == b.flex_direction);
    assert(a.flex_wrap == b.flex_wrap);
    assert(a.justify_content == b.justify_content);
    assert(a.align_items == b.align_items);
    assert(a.align_content == b.align_content);
    assert(a.align_self == b.align_self);
    assert(a.gap == b.gap);
    assert(a.size == b.size);
    assert(a.min_size == b.min_size);
    assert(a.max_size == b.max_size);
    assert(a.padding == b.padding);
    assert(a.margin == b.margin);
    assert(a.border == b.border);
    assert(a.inset == b.inset);
    assert(a.flex_basis == b.flex_basis);
    assert(a.flex_grow == b.flex_grow);
    assert(a.flex_shrink == b.flex_shrink);
    assert(a.aspect_ratio == b.aspect_ratio);
    assert(a.overflow == b.overflow);
}

proof fn lemma_fields(k: int, b: Seq<u8>, p: int, s: Style, from: Style, mask: u64)
    requires
        0 <= k <= FIELD_COUNT,
        holds(b, p, put_fields(k, from, mask)),
    ensures
        get_fields(k, b, p, s, mask) == Some(
            (mixed(k, s, received(from), mask), p + put_fields(k, from, mask).len()),
        ),
    decreases FIELD_COUNT - k,
{
    if k < FIELD_COUNT {
        lemma_mixed(k, s, received(from), mask);
        if selects(mask, k) {
            let w = put_field(k, from);
            lemma_holds_split(b, p, w, put_fields(k + 1, from, mask));
            lemma_field(k, b, p, s, from);
            lemma_fields(k + 1, b, p + w.len(), with_field(k, s, received(from)), from, mask);
        } else {
            lemma_fields(k + 1, b, p, s, from, mask);
        }
    }
}

/// A style record reads back, whatever lies around it in the buffer: the
/// fields that its mask selects are those of the style that was written, the
/// others keep their values, and exactly the bytes of the record are read. An
/// aspect ratio that is a NaN reads back as missing.
pub proof fn law_style_round_trip(b: Seq<u8>, p: int, s: Style, from: Style, mask: u64)
    requires
        holds(b, p, put_fields(0, from, mask)),
    ensures
        get_fields(0, b, p, s, mask) == Some(
            (mixed(0, s, received(from), mask), p + put_fields(0, from, mask).len()),
        ),
{
    lemma_fields(0, b, p, s, from, mask);
}

proof fn lemma_all_selects(k: int)
    requires
        0 <= k < FIELD_COUNT,
    ensures
        selects(ALL, k),
{
    let j = k as u64;
    assert(j < 21 ==> (0x1F_FFFFu64 >> j) & 1 == 1) by (bit_vector);
}

/// A full style record reads back as the style that was written.
pub proof fn law_full_style_round_trip(b: Seq<u8>, p: int, s: Style, from: Style)
    requires
        holds(b, p, put_fields(0, from, ALL)),
    ensures
        get_fields(0, b, p, s, ALL) == Some((received(from), p + put_fields(0, from, ALL).len())),
        carried(from) ==> received(from) == from,
{
    law_style_round_trip(b, p, s, from, ALL);
    assert forall|k: int| 0 <= k < FIELD_COUNT implies #[trigger] taken(0, ALL, k) by {
        lemma_all_selects(k);
    }
}

/// A field that the mask leaves out keeps its value, and takes no bytes.
pub proof fn law_unselected_fields_stay(k: int, b: Seq<u8>, p: int, s: Style, mask: u64)
    requires
        0 <= k <= FIELD_COUNT,
        forall|j: int| k <= j < FIELD_COUNT ==> !selects(mask, j),
    ensures
        get_fields(k, b, p, s, mask) == Some((s, p)),
        put_fields(k, s, mask) == Seq::<u8>::empty(),
    decreases FIELD_COUNT - k,
{
    if k < FIELD_COUNT {
        law_unselected_fields_stay(k + 1, b, p, s, mask);
    }
}

/// A reader of fields stays in the buffer and never goes back.
pub proof fn lemma_fields_advance(k: int, b: Seq<u8>, p: int, s: Style, mask: u64)
    requires
        0 <= k,
        p <= b.len(),
    ensures
        get_fields(k, b, p, s, mask) matches Some((t, p1)) ==> p <= p1 <= b.len(),
    decreases FIELD_COUNT - k,
{
    if k < FIELD_COUNT {
        if selects(mask, k) {
            if let Some((t, p1)) = get_field(k, b, p, s) {
                lemma_fields_advance(k + 1, b, p1, t, mask);
            }
        } else {
            lemma_fields_advance(k + 1, b, p, s, mask);
        }
    }
}

// ------------------------------------------------------------------ writing

fn push_lp(out: &mut Vec<u8>, v: LengthPercentage)
    ensures
        final(out)@ == old(out)@ + put_lp(v),
{
    let ghost start = out@;
    match v {
        LengthPercentage::Length(f) => {
            push_u8(out, 0);
            push_u32(out, f.0);
        },
        LengthPercentage::Percent(f) => {
            push_u8(out, 1);
            push_u32(out, f.0);
        },
    }
    proof {
        assert(out@ =~= start + put_lp(v));
    }
}

fn push_lpa(out: &mut Vec<u8>, v: LengthPercentageAuto)
    ensures
        final(out)@ == old(out)@ + put_lpa(v),
{
    let ghost start = out@;
    match v {
        LengthPercentageAuto::Length(f) => {
            push_u8(out, 0);
            push_u32(out, f.0);
        },
        LengthPercentageAuto::Percent(f) => {
            push_u8(out, 1);
            push_u32(out, f.0);
        },
        LengthPercentageAuto::Auto => {
            push_u8(out, 2);
        },
    }
    proof {
        assert(out@ =~= start + put_lpa(v));
    }
}

fn push_dim(out: &mut Vec<u8>, v: Dimension)
    ensures
        final(out)@ == old(out)@ + put_dim(v),
{
    let ghost start = out@;
    match v {
        Dimension::Length(f) => {
            push_u8(out, 0);
            push_u32(out, f.0);
        },
        Dimension::Percent(f) => {
            push_u8(out, 1);
            push_u32(out, f.0);
        },
        Dimension::Auto => {
            push_u8(out, 2);
        },
        Dimension::MinContent => {
            push_u8(out, 3);
        },
        Dimension::MaxContent => {
            push_u8(out, 4);
        },
        Dimension::FitContentPx(f) => {
            push_u8(out, 5);
            push_u32(out, f.0);
        },
        Dimension::FitContentPercent(f) => {
            push_u8(out, 6);
            push_u32(out, f.0);
        },
        Dimension::FitContent => {
            push_u8(out, 7);
        },
        Dimension::Stretch => {
            push_u8(out, 8);
        },
        Dimension::Content => {
            push_u8(out, 9);
        },
    }
    proof {
        assert(out@ =~= start + put_dim(v));
    }
}

fn push_lp_pair(out: &mut Vec<u8>, v: Extent<LengthPercentage>)
    ensures
        final(out)@ == old(out)@ + put_lp_pair(v),
{
    let ghost start = out@;
    push_lp(out, v.width);
    push_lp(out, v.height);
    proof {
        assert(out@ =~= start + put_lp_pair(v));
    }
}

fn push_lpa_pair(out: &mut Vec<u8>, v: Extent<LengthPercentageAuto>)
    ensures
        final(out)@ == old(out)@ + put_lpa_pair(v),
{
    let ghost start = out@;
    push_lpa(out, v.width);
    push_lpa(out, v.height);
    proof {
        assert(out@ =~= start + put_lpa_pair(v));
    }
}

fn push_dim_pair(out: &mut Vec<u8>, v: Extent<Dimension>)
    ensures
        final(out)@ == old(out)@ + put_dim_pair(v),
{
    let ghost start = out@;
    push_dim(out, v.width);
    push_dim(out, v.height);
    proof {
        assert(out@ =~= start + put_dim_pair(v));
    }
}

fn push_lp_sides(out: &mut Vec<u8>, v: Sides<LengthPercentage>)
    ensures
        final(out)@ == old(out)@ + put_lp_sides(v),
{
    let ghost start = out@;
    push_lp(out, v.left);
    push_lp(out, v.right);
    push_lp(out, v.top);
    push_lp(out, v.bottom);
    proof {
        assert(out@ =~= start + put_lp_sides(v));
    }
}

fn push_lpa_sides(out: &mut Vec<u8>, v: Sides<LengthPercentageAuto>)
    ensures
        final(out)@ == old(out)@ + put_lpa_sides(v),
{
    let ghost start = out@;
    push_lpa(out, v.left);
    push_lpa(out, v.right);
    push_lpa(out, v.top);
    push_lpa(out, v.bottom);
    proof {
        assert(out@ =~= start + put_lpa_sides(v));
    }
}

/// Appends field `k`.
fn push_field(out: &mut Vec<u8>, k: u32, s: &Style)
    requires
        k < FIELD_COUNT,
    ensures
        final(out)@ == old(out)@ + put_field(k as int, *s),
{
    let ghost start = out@;
    match k {
        DISPLAY => {
            push_u8(out, tag_of_display(s.display));
        },
        POSITION => {
            push_u8(out, tag_of_place(s.position));
        },
        FLEX_DIRECTION => {
            push_u8(out, tag_of_direction(s.flex_direction));
        },
        FLEX_WRAP => {
            push_u8(out, tag_of_wrap(s.flex_wrap));
        },
        JUSTIFY_CONTENT => {
            push_u8(out, tag_of_content(s.justify_content));
        },
        ALIGN_ITEMS => {
            push_u8(out, tag_of_items(s.align_items));
        },
        ALIGN_CONTENT => {
            push_u8(out, tag_of_content(s.align_content));
        },
        ALIGN_SELF => {
            push_u8(out, tag_of_items(s.align_self));
        },
        GAP => {
            push_lp_pair(out, s.gap);
        },
        SIZE => {
            push_dim_pair(out, s.size);
        },
        MIN_SIZE => {
            push_lpa_pair(out, s.min_size);
        },
        MAX_SIZE => {
            push_lpa_pair(out, s.max_size);
        },
        PADDING => {
            push_lp_sides(out, s.padding);
        },
        MARGIN => {
            push_lpa_sides(out, s.margin);
        },
        BORDER => {
            push_lp_sides(out, s.border);
        },
        INSET => {
            push_lpa_sides(out, s.inset);
        },
        FLEX_BASIS => {
            push_dim(out, s.flex_basis);
        },
        FLEX_GROW => {
            push_u32(out, s.flex_grow.0);
        },
        FLEX_SHRINK => {
            push_u32(out, s.flex_shrink.0);
        },
        ASPECT_RATIO => {
            match s.aspect_ratio {
                None => push_u32(out, NAN_BITS),
                Some(f) => push_u32(out, f.0),
            }
        },
        OVERFLOW => {
            push_u8(out, tag_of_overflow(s.overflow.x));
            push_u8(out, tag_of_overflow(s.overflow.y));
        },
        _ => {},
    }
    proof {
        assert(out@ =~= start + put_field(k as int, *s));
    }
}

/// Serializes the fields that `mask` selects, in schema order.
pub fn put_style_fields(out: &mut Vec<u8>, s: &Style, mask: u64)
    ensures
        final(out)@ == old(out)@ + put_fields(0, *s, mask),
{
    let ghost start = out@;
    let mut k: u32 = 0;
    while k < FIELD_COUNT
        invariant
            k <= FIELD_COUNT,
            out@ + put_fields(k as int, *s, mask) == start + put_fields(0, *s, mask),
        decreases FIELD_COUNT - k,
    {
        let ghost before = out@;
        if (mask >> (k as u64)) & 1 == 1 {
            push_field(out, k, s);
            proof {
                assert(out@ + put_fields(k + 1, *s, mask) =~= before + put_fields(
                    k as int,
                    *s,
                    mask,
                ));
            }
        }
        k = k + 1;
    }
    proof {
        assert(out@ + put_fields(k as int, *s, mask) =~= out@);
    }
}

// ------------------------------------------------------------------ reading

impl<'a> Reader<'a> {
    fn lp(&mut self) -> (r: Option<LengthPercentage>)
        requires
            old(self).wf(),
        ensures
            advanced(*old(self), *final(self), r, get_lp(old(self).buf@, old(self).pos as int)),
    {
        let tag: u8 = match self.u8() {
            Some(tag) => tag,
            None => {
                return None;
            },
        };
        if tag > 1 {
            return None;
        }
        match self.scalar() {
            None => None,
            Some(f) => Some(
                if tag == 0 {
                    LengthPercentage::Length(f)
                } else {
                    LengthPercentage::Percent(f)
                },
            ),
        }
    }

    fn lpa(&mut self) -> (r: Option<LengthPercentageAuto>)
        requires
            old(self).wf(),
        ensures
            advanced(*old(self), *final(self), r, get_lpa(old(self).buf@, old(self).pos as int)),
    {
        let tag: u8 = match self.u8() {
            Some(tag) => tag,
            None => {
                return None;
            },
        };
        if tag > 1 {
            return Some(LengthPercentageAuto::Auto);
        }
        match self.scalar() {
            None => None,
            Some(f) => Some(
                if tag == 0 {
                    LengthPercentageAuto::Length(f)
                } else {
                    LengthPercentageAuto::Percent(f)
                },
            ),
        }
    }

    fn dim(&mut self) -> (r: Option<Dimension>)
        requires
            old(self).wf(),
        ensures
            advanced(*old(self), *final(self), r, get_dim(old(self).buf@, old(self).pos as int)),
    {
        let tag: u8 = match self.u8() {
            Some(tag) => tag,
            None => {
                return None;
            },
        };
        match tag {
            0 | 1 | 5 | 6 => match self.scalar() {
                None => None,
                Some(f) => Some(
                    if tag == 0 {
                        Dimension::Length(f)
                    } else if tag == 1 {
                        Dimension::Percent(f)
                    } else if tag == 5 {
                        Dimension::FitContentPx(f)
                    } else {
                        Dimension::FitContentPercent(f)
                    },
                ),
            },
            2 => Some(Dimension::Auto),
            3 => Some(Dimension::MinContent),
            4 => Some(Dimension::MaxContent),
            7 => Some(Dimension::FitContent),
            8 => Some(Dimension::Stretch),
            _ => Some(Dimension::Content),
        }
    }

    fn lp_pair(&mut self) -> (r: Option<Extent<LengthPercentage>>)
        requires
            old(self).wf(),
        ensures
            advanced(
                *old(self),
                *final(self),
                r,
                get_lp_pair(old(self).buf@, old(self).pos as int),
            ),
    {
        match self.lp() {
            None => None,
            Some(width) => match self.lp() {
                None => None,
                Some(height) => Some(Extent { width, height }),
            },
        }
    }

    fn lpa_pair(&mut self) -> (r: Option<Extent<LengthPercentageAuto>>)
        requires
            old(self).wf(),
        ensures
            advanced(
                *old(self),
                *final(self),
                r,
                get_lpa_pair(old(self).buf@, old(self).pos as int),
            ),
    {
        match self.lpa() {
            None => None,
            Some(width) => match self.lpa() {
                None => None,
                Some(height) => Some(Extent { width, height }),
            },
        }
    }

    fn dim_pair(&mut self) -> (r: Option<Extent<Dimension>>)
        requires
            old(self).wf(),
        ensures
            advanced(
                *old(self),
                *final(self),
                r,
                get_dim_pair(old(self).buf@, old(self).pos as int),
            ),
    {
        match self.dim() {
            None => None,
            Some(width) => match self.dim() {
                None => None,
                Some(height) => Some(Extent { width, height }),
            },
        }
    }

    fn lp_sides(&mut self) -> (r: Option<Sides<LengthPercentage>>)
        requires
            old(self).wf(),
        ensures
            advanced(
                *old(self),
                *final(self),
                r,
                get_lp_sides(old(self).buf@, old(self).pos as int),
            ),
    {
        match self.lp() {
            None => None,
            Some(left) => match self.lp() {
                None => None,
                Some(right) => match self.lp() {
                    None => None,
                    Some(top) => match self.lp() {
                        None => None,
                        Some(bottom) => Some(Sides { left, right, top, bottom }),
                    },
                },
            },
        }
    }

    fn lpa_sides(&mut self) -> (r: Option<Sides<LengthPercentageAuto>>)
        requires
            old(self).wf(),
        ensures
            advanced(
                *old(self),
                *final(self),
                r,
                get_lpa_sides(old(self).buf@, old(self).pos as int),
            ),
    {
        match self.lpa() {
            None => None,
            Some(left) => match self.lpa() {
                None => None,
                Some(right) => match self.lpa() {
                    None => None,
                    Some(top) => match self.lpa() {
                        None => None,
                        Some(bottom) => Some(Sides { left, right, top, bottom }),
                    },
                },
            },
        }
    }

    /// Reads field `k` into `s`.
    fn field(&mut self, k: u32, s: Style) -> (r: Option<Style>)
        requires
            old(self).wf(),
            k < FIELD_COUNT,
        ensures
            advanced(
                *old(self),
                *final(self),
                r,
                get_field(k as int, old(self).buf@, old(self).pos as int, s),
            ),
    {
        match k {
            DISPLAY => match self.u8() {
                None => None,
                Some(v) => Some(Style { display: display_from(v), ..s }),
            },
            POSITION => match self.u8() {
                None => None,
                Some(v) => Some(Style { position: place_from(v), ..s }),
            },
            FLEX_DIRECTION => match self.u8() {
                None => None,
                Some(v) => Some(Style { flex_direction: direction_from(v), ..s }),
            },
            FLEX_WRAP => match self.u8() {
                None => None,
                Some(v) => Some(Style { flex_wrap: wrap_from(v), ..s }),
            },
            JUSTIFY_CONTENT => match self.u8() {
                None => None,
                Some(v) => Some(Style { justify_content: content_from(v), ..s }),
            },
            ALIGN_ITEMS => match self.u8() {
                None => None,
                Some(v) => Some(Style { align_items: items_from(v), ..s }),
            },
            ALIGN_CONTENT => match self.u8() {
                None => None,
                Some(v) => Some(Style { align_content: content_from(v), ..s }),
            },
            ALIGN_SELF => match self.u8() {
                None => None,
                Some(v) => Some(Style { align_self: items_from(v), ..s }),
            },
            GAP => match self.lp_pair() {
                None => None,
                Some(v) => Some(Style { gap: v, ..s }),
            },
            SIZE => match self.dim_pair() {
                None => None,
                Some(v) => Some(Style { size: v, ..s }),
            },
            MIN_SIZE => match self.lpa_pair() {
                None => None,
                Some(v) => Some(Style { min_size: v, ..s }),
            },
            MAX_SIZE => match self.lpa_pair() {
                None => None,
                Some(v) => Some(Style { max_size: v, ..s }),
            },
            PADDING => match self.lp_sides() {
                None => None,
                Some(v) => Some(Style { padding: v, ..s }),
            },
            MARGIN => match self.lpa_sides() {
                None => None,
                Some(v) => Some(Style { margin: v, ..s }),
            },
            BORDER => match self.lp_sides() {
                None => None,
                Some(v) => Some(Style { border: v, ..s }),
            },
            INSET => match self.lpa_sides() {
                None => None,
                Some(v) => Some(Style { inset: v, ..s }),
            },
            FLEX_BASIS => match self.dim() {
                None => None,
                Some(v) => Some(Style { flex_basis: v, ..s }),
            },
            FLEX_GROW => match self.scalar() {
                None => None,
                Some(v) => Some(Style { flex_grow: v, ..s }),
            },
            FLEX_SHRINK => match self.scalar() {
                None => None,
                Some(v) => Some(Style { flex_shrink: v, ..s }),
            },
            ASPECT_RATIO => match self.scalar() {
                None => None,
                Some(v) => Some(
                    Style {
                        aspect_ratio: if v.is_nan() {
                            None
                        } else {
                            Some(v)
                        },
                        ..s
                    },
                ),
            },
            OVERFLOW => match self.u8() {
                None => None,
                Some(x) => match self.u8() {
                    None => None,
                    Some(y) => Some(
                        Style {
                            overflow: OverflowAxes { x: overflow_from(x), y: overflow_from(y) },
                            ..s
                        },
                    ),
                },
            },
            _ => Some(s),
        }
    }

    /// Reads the fields that `mask` selects; the others keep the value that
    /// an unstyled node has.
    pub fn style(&mut self, mask: u64) -> (r: Option<Style>)
        requires
            old(self).wf(),
        ensures
            advanced(
                *old(self),
                *final(self),
                r,
                get_fields(0, old(self).buf@, old(self).pos as int, Style::initial(), mask),
            ),
    {
        let ghost start = *self;
        let ghost goal = get_fields(0, self.buf@, self.pos as int, Style::initial(), mask);
        let mut s: Style = Style::default();
        let mut k: u32 = 0;
        while k < FIELD_COUNT
            invariant
                k <= FIELD_COUNT,
                self.wf(),
                self.buf == start.buf,
                start == *old(self),
                goal == get_fields(0, start.buf@, start.pos as int, Style::initial(), mask),
                get_fields(k as int, self.buf@, self.pos as int, s, mask) == goal,
            decreases FIELD_COUNT - k,
        {
            if (mask >> (k as u64)) & 1 == 1 {
                match self.field(k, s) {
                    None => {
                        return None;
                    },
                    Some(t) => {
                        s = t;
                    },
                }
            }
            k = k + 1;
        }
        Some(s)
    }
}

} // verus!
