//! The op stream of a transaction: what each op means as bytes.

use super::bytes::{
    get_bool, get_scalar, get_u16, get_u32, get_u64, get_u8, holds, lemma_bool, lemma_holds_split,
    lemma_scalar, lemma_u16_first, lemma_u32, lemma_u32_first, lemma_u64, lemma_u64_first, lemma_u8,
    put_bool, put_u16, put_u32, put_u64, put_u8, Parsed,
};
use super::fields::{
    carried, get_fields, law_full_style_round_trip, put_fields, received, ALL,
};
use crate::scalar::Scalar;
use crate::style::Style;
use vstd::prelude::*;
use vstd::utf8::{decode_utf8, encode_utf8, valid_utf8};

verus! {

/// "CRW1".
pub const MAGIC: u32 = 0x3157_5243;

pub const VERSION: u16 = 1;

pub const CREATE: u8 = 0x01;

pub const SET_TEXT: u8 = 0x02;

pub const TEXT_PROPS: u8 = 0x03;

pub const SET_STYLE: u8 = 0x04;

pub const PLACE: u8 = 0x05;

pub const DETACH: u8 = 0x06;

pub const REMOVE: u8 = 0x07;

pub const HIDDEN: u8 = 0x08;

pub const STYLE: u8 = 0x09;

pub const VIEW_PAINT: u8 = 0x0A;

pub const PAINT: u8 = 0x0B;

pub const PROPS: u8 = 0x0C;

pub const INPUT_PROPS: u8 = 0x0D;

pub const COMMAND: u8 = 0x0E;

pub const CUSTOM: u8 = 0x0F;

pub const LABEL: u8 = 0x10;

/// Why a transaction was turned down.
#[derive(Clone, Copy, Debug, PartialEq, Eq, Structural)]
pub enum WireError {
    /// The buffer ends inside a value, or a value is none that the format
    /// has there.
    Truncated,
    BadMagic,
    BadVersion(u16),
    BadOp(u8),
    /// The buffer ends inside the string of this index.
    BadString(usize),
    BadUtf8,
    /// The op of this index cannot be applied to the tree as the ops before
    /// it leave it.
    Rejected(usize),
}

/// Parts of a node's paint; a missing part keeps its value.
#[derive(Clone, Copy, Debug, PartialEq, Eq)]
pub struct PaintParts {
    /// Background fill, 0xRRGGBBAA.
    pub fill: Option<u32>,
    pub radius: Option<Scalar>,
    /// Border color (0xRRGGBBAA) and width.
    pub border: Option<(u32, Scalar)>,
}

/// The four numbers of a custom node's payload.
#[derive(Clone, Copy, Debug, PartialEq, Eq, Structural)]
pub struct Payload(pub Scalar, pub Scalar, pub Scalar, pub Scalar);

/// A command that a transaction carries to a node.
#[derive(Clone, Copy, Debug)]
pub enum Command<'a> {
    Focus,
    Blur,
    SetInputText(&'a str),
    ScrollTo(Scalar, Scalar),
}

pub enum CommandModel {
    Focus,
    Blur,
    SetInputText(Seq<char>),
    ScrollTo(Scalar, Scalar),
}

impl<'a> View for Command<'a> {
    type V = CommandModel;

    open spec fn view(&self) -> CommandModel {
        match *self {
            Command::Focus => CommandModel::Focus,
            Command::Blur => CommandModel::Blur,
            Command::SetInputText(text) => CommandModel::SetInputText(text@),
            Command::ScrollTo(x, y) => CommandModel::ScrollTo(x, y),
        }
    }
}

/// One op of a transaction. Strings borrow from the buffer.
#[derive(Debug)]
pub enum Op<'a> {
    /// Creates a node: kind 1 text, 2 input, 3 custom, else view.
    Create { id: u32, kind: u8 },
    /// Sets a text node's content.
    SetText { id: u32, text: &'a str },
    /// Sets a text node's font size and color.
    TextProps { id: u32, font_size: Scalar, color: u32 },
    /// Gives a node a style; all ones clears it.
    SetStyle { id: u32, wire_style: u32 },
    /// Moves a node under a parent, before a sibling; all ones stand for the
    /// top level as the parent, and for the end as the sibling.
    Place { parent: u32, child: u32, before: u32 },
    /// Unlinks a node.
    Detach { id: u32 },
    /// Frees a node.
    Remove { id: u32 },
    /// Sets or clears a node's hidden bit.
    Hidden { id: u32, hidden: bool },
    /// Defines a style.
    Style { wire_id: u32, style: Box<Style> },
    /// Sets a node's background color.
    ViewPaint { id: u32, color: u32 },
    /// Sets the given parts of a node's paint.
    Paint { id: u32, paint: PaintParts },
    /// Sets a node's listeners and whether it takes focus.
    Props { id: u32, listeners: u32, focusable: bool },
    /// Configures an input node.
    InputProps { id: u32, font_size: Scalar, color: u32, placeholder: &'a str, multiline: bool },
    /// Runs a command on a node.
    Command { id: u32, cmd: Command<'a> },
    /// Gives a custom node its payload.
    Custom { id: u32, tag: u32, data: Payload, text: &'a str },
    /// Names a node for assistive technology; an empty text clears the name.
    Label { id: u32, text: &'a str },
}

/// What an op says.
pub enum OpModel {
    Create { id: u32, kind: u8 },
    SetText { id: u32, text: Seq<char> },
    TextProps { id: u32, font_size: Scalar, color: u32 },
    SetStyle { id: u32, wire_style: u32 },
    Place { parent: u32, child: u32, before: u32 },
    Detach { id: u32 },
    Remove { id: u32 },
    Hidden { id: u32, hidden: bool },
    Style { wire_id: u32, style: Style },
    ViewPaint { id: u32, color: u32 },
    Paint { id: u32, paint: PaintParts },
    Props { id: u32, listeners: u32, focusable: bool },
    InputProps { id: u32, font_size: Scalar, color: u32, placeholder: Seq<char>, multiline: bool },
    Command { id: u32, cmd: CommandModel },
    Custom { id: u32, tag: u32, data: Payload, text: Seq<char> },
    Label { id: u32, text: Seq<char> },
}

impl<'a> View for Op<'a> {
    type V = OpModel;

    open spec fn view(&self) -> OpModel {
        match *self {
            Op::Create { id, kind } => OpModel::Create { id, kind },
            Op::SetText { id, text } => OpModel::SetText { id, text: text@ },
            Op::TextProps { id, font_size, color } => OpModel::TextProps { id, font_size, color },
            Op::SetStyle { id, wire_style } => OpModel::SetStyle { id, wire_style },
            Op::Place { parent, child, before } => OpModel::Place { parent, child, before },
            Op::Detach { id } => OpModel::Detach { id },
            Op::Remove { id } => OpModel::Remove { id },
            Op::Hidden { id, hidden } => OpModel::Hidden { id, hidden },
            Op::Style { wire_id, style } => OpModel::Style { wire_id, style: *style },
            Op::ViewPaint { id, color } => OpModel::ViewPaint { id, color },
            Op::Paint { id, paint } => OpModel::Paint { id, paint },
            Op::Props { id, listeners, focusable } => OpModel::Props { id, listeners, focusable },
            Op::InputProps { id, font_size, color, placeholder, multiline } => OpModel::InputProps {
                id,
                font_size,
                color,
                placeholder: placeholder@,
                multiline,
            },
            Op::Command { id, cmd } => OpModel::Command { id, cmd: cmd@ },
            Op::Custom { id, tag, data, text } => OpModel::Custom { id, tag, data, text: text@ },
            Op::Label { id, text } => OpModel::Label { id, text: text@ },
        }
    }
}

/// A decoded transaction.
pub struct Txn<'a> {
    pub seq: u64,
    pub ops: Vec<Op<'a>>,
}

#[verifier::ext_equal]
pub struct TxnModel {
    pub seq: u64,
    pub ops: Seq<OpModel>,
}

impl<'a> View for Txn<'a> {
    type V = TxnModel;

    open spec fn view(&self) -> TxnModel {
        TxnModel { seq: self.seq, ops: Seq::new(self.ops@.len(), |i: int| self.ops@[i]@) }
    }
}

// ------------------------------------------------------------------ strings

/// Index of the first `text` in a string table; its length where the table
/// lacks it.
pub open spec fn slot(st: Seq<Seq<char>>, text: Seq<char>) -> int
    decreases st.len(),
{
    if st.len() == 0 || st[0] == text {
        0
    } else {
        1 + slot(st.drop_first(), text)
    }
}

/// A string is written as its index in the table.
pub open spec fn put_str(text: Seq<char>, st: Seq<Seq<char>>) -> Seq<u8> {
    put_u32(slot(st, text) as u32)
}

pub open spec fn get_str(b: Seq<u8>, p: int, st: Seq<Seq<char>>) -> Parsed<Seq<char>> {
    match get_u32(b, p) {
        None => None,
        Some((i, p1)) => if i < st.len() {
            Some((st[i as int], p1))
        } else {
            None
        },
    }
}

/// The table itself: each string as its byte length and its bytes.
pub open spec fn put_strings(st: Seq<Seq<char>>) -> Seq<u8>
    decreases st.len(),
{
    if st.len() == 0 {
        Seq::empty()
    } else {
        put_u32(encode_utf8(st[0]).len() as u32) + (encode_utf8(st[0]) + put_strings(
            st.drop_first(),
        ))
    }
}

/// Reads the strings from the `i`-th on, of `n`.
pub open spec fn get_strings(b: Seq<u8>, p: int, i: int, n: int) -> Result<
    (Seq<Seq<char>>, int),
    WireError,
>
    decreases n - i,
{
    if i >= n {
        Ok((Seq::empty(), p))
    } else {
        match get_u32(b, p) {
            None => Err(WireError::Truncated),
            Some((len, p1)) => if p1 + len > b.len() {
                Err(WireError::BadString(i as usize))
            } else if !valid_utf8(b.subrange(p1, p1 + len)) {
                Err(WireError::BadUtf8)
            } else {
                match get_strings(b, p1 + len, i + 1, n) {
                    Err(e) => Err(e),
                    Ok((rest, p2)) => Ok(
                        (seq![decode_utf8(b.subrange(p1, p1 + len))] + rest, p2),
                    ),
                }
            },
        }
    }
}

// ------------------------------------------------------------ composite parts

/// A presence byte (1 fill, 2 radius, 4 border), then the parts.
pub open spec fn put_paint(v: PaintParts) -> Seq<u8> {
    put_u8(paint_mask(v)) + (put_fill(v.fill) + (put_radius(v.radius) + put_border(v.border)))
}

pub open spec fn paint_mask(v: PaintParts) -> u8 {
    ((if v.fill is Some {
        1int
    } else {
        0
    }) + (if v.radius is Some {
        2int
    } else {
        0
    }) + (if v.border is Some {
        4int
    } else {
        0
    })) as u8
}

pub open spec fn put_fill(v: Option<u32>) -> Seq<u8> {
    match v {
        Some(color) => put_u32(color),
        None => Seq::empty(),
    }
}

pub open spec fn put_radius(v: Option<Scalar>) -> Seq<u8> {
    match v {
        Some(r) => put_u32(r.0),
        None => Seq::empty(),
    }
}

pub open spec fn put_border(v: Option<(u32, Scalar)>) -> Seq<u8> {
    match v {
        Some((color, width)) => put_u32(color) + put_u32(width.0),
        None => Seq::empty(),
    }
}

pub open spec fn get_fill(on: bool, b: Seq<u8>, p: int) -> Parsed<Option<u32>> {
    if !on {
        Some((None, p))
    } else {
        match get_u32(b, p) {
            None => None,
            Some((v, p1)) => Some((Some(v), p1)),
        }
    }
}

pub open spec fn get_radius(on: bool, b: Seq<u8>, p: int) -> Parsed<Option<Scalar>> {
    if !on {
        Some((None, p))
    } else {
        match get_scalar(b, p) {
            None => None,
            Some((v, p1)) => Some((Some(v), p1)),
        }
    }
}

pub open spec fn get_border(on: bool, b: Seq<u8>, p: int) -> Parsed<Option<(u32, Scalar)>> {
    if !on {
        Some((None, p))
    } else {
        match get_u32(b, p) {
            None => None,
            Some((color, p1)) => match get_scalar(b, p1) {
                None => None,
                Some((width, p2)) => Some((Some((color, width)), p2)),
            },
        }
    }
}

pub open spec fn get_paint(b: Seq<u8>, p: int) -> Parsed<PaintParts> {
    match get_u8(b, p) {
        None => None,
        Some((mask, p1)) => match get_fill(mask % 2 == 1, b, p1) {
            None => None,
            Some((fill, p2)) => match get_radius(mask / 2 % 2 == 1, b, p2) {
                None => None,
                Some((radius, p3)) => match get_border(mask / 4 % 2 == 1, b, p3) {
                    None => None,
                    Some((border, p4)) => Some((PaintParts { fill, radius, border }, p4)),
                },
            },
        },
    }
}

/// Tag 0 focus, 1 blur, 2 set text, 3 scroll to.
pub open spec fn put_cmd(v: CommandModel, st: Seq<Seq<char>>) -> Seq<u8> {
    match v {
        CommandModel::Focus => put_u8(0),
        CommandModel::Blur => put_u8(1),
        CommandModel::SetInputText(text) => put_u8(2) + put_str(text, st),
        CommandModel::ScrollTo(x, y) => put_u8(3) + (put_u32(x.0) + put_u32(y.0)),
    }
}

/// Any other tag is refused.
pub open spec fn get_cmd(b: Seq<u8>, p: int, st: Seq<Seq<char>>) -> Parsed<CommandModel> {
    match get_u8(b, p) {
        None => None,
        Some((tag, p1)) => if tag == 0 {
            Some((CommandModel::Focus, p1))
        } else if tag == 1 {
            Some((CommandModel::Blur, p1))
        } else if tag == 2 {
            match get_str(b, p1, st) {
                None => None,
                Some((text, p2)) => Some((CommandModel::SetInputText(text), p2)),
            }
        } else if tag == 3 {
            match get_scalar(b, p1) {
                None => None,
                Some((x, p2)) => match get_scalar(b, p2) {
                    None => None,
                    Some((y, p3)) => Some((CommandModel::ScrollTo(x, y), p3)),
                },
            }
        } else {
            None
        },
    }
}

pub open spec fn put_payload(v: Payload) -> Seq<u8> {
    put_u32(v.0.0) + (put_u32(v.1.0) + (put_u32(v.2.0) + put_u32(v.3.0)))
}

pub open spec fn get_payload(b: Seq<u8>, p: int) -> Parsed<Payload> {
    match get_scalar(b, p) {
        None => None,
        Some((x, p1)) => match get_scalar(b, p1) {
            None => None,
            Some((y, p2)) => match get_scalar(b, p2) {
                None => None,
                Some((z, p3)) => match get_scalar(b, p3) {
                    None => None,
                    Some((u, p4)) => Some((Payload(x, y, z, u), p4)),
                },
            },
        },
    }
}

/// A full record: the mask that selects every field, and the fields.
pub open spec fn put_style(v: Style) -> Seq<u8> {
    put_u64(ALL) + put_fields(0, v, ALL)
}

/// A record may select any fields; the others keep their initial value.
pub open spec fn get_style(b: Seq<u8>, p: int) -> Parsed<Style> {
    match get_u64(b, p) {
        None => None,
        Some((mask, p1)) => get_fields(0, b, p1, Style::initial(), mask),
    }
}

// ---------------------------------------------------------------------- ops

pub open spec fn op_tag(op: OpModel) -> u8 {
    match op {
        OpModel::Create { .. } => CREATE,
        OpModel::SetText { .. } => SET_TEXT,
        OpModel::TextProps { .. } => TEXT_PROPS,
        OpModel::SetStyle { .. } => SET_STYLE,
        OpModel::Place { .. } => PLACE,
        OpModel::Detach { .. } => DETACH,
        OpModel::Remove { .. } => REMOVE,
        OpModel::Hidden { .. } => HIDDEN,
        OpModel::Style { .. } => STYLE,
        OpModel::ViewPaint { .. } => VIEW_PAINT,
        OpModel::Paint { .. } => PAINT,
        OpModel::Props { .. } => PROPS,
        OpModel::InputProps { .. } => INPUT_PROPS,
        OpModel::Command { .. } => COMMAND,
        OpModel::Custom { .. } => CUSTOM,
        OpModel::Label { .. } => LABEL,
    }
}

/// The fields of an op, in order.
pub open spec fn put_body(op: OpModel, st: Seq<Seq<char>>) -> Seq<u8> {
    match op {
        OpModel::Create { id, kind } => put_u32(id) + put_u8(kind),
        OpModel::SetText { id, text } => put_u32(id) + put_str(text, st),
        OpModel::TextProps { id, font_size, color } => put_u32(id) + (
            put_u32(font_size.0) + put_u32(color)
        ),
        OpModel::SetStyle { id, wire_style } => put_u32(id) + put_u32(wire_style),
        OpModel::Place { parent, child, before } => put_u32(parent) + (
            put_u32(child) + put_u32(before)
        ),
        OpModel::Detach { id } => put_u32(id),
        OpModel::Remove { id } => put_u32(id),
        OpModel::Hidden { id, hidden } => put_u32(id) + put_bool(hidden),
        OpModel::Style { wire_id, style } => put_u32(wire_id) + put_style(style),
        OpModel::ViewPaint { id, color } => put_u32(id) + put_u32(color),
        OpModel::Paint { id, paint } => put_u32(id) + put_paint(paint),
        OpModel::Props { id, listeners, focusable } => put_u32(id) + (
            put_u32(listeners) + put_bool(focusable)
        ),
        OpModel::InputProps { id, font_size, color, placeholder, multiline } => put_u32(id) + (
            put_u32(font_size.0) + (
                put_u32(color) + (put_str(placeholder, st) + put_bool(multiline))
            )
        ),
        OpModel::Command { id, cmd } => put_u32(id) + put_cmd(cmd, st),
        OpModel::Custom { id, tag, data, text } => put_u32(id) + (
            put_u32(tag) + (put_payload(data) + put_str(text, st))
        ),
        OpModel::Label { id, text } => put_u32(id) + put_str(text, st),
    }
}

pub open spec fn put_op(op: OpModel, st: Seq<Seq<char>>) -> Seq<u8> {
    put_u8(op_tag(op)) + put_body(op, st)
}

#[verifier::opaque]
pub open spec fn get_create_op(b: Seq<u8>, p: int, st: Seq<Seq<char>>) -> Parsed<OpModel> {
    match get_u32(b, p) {
        None => None,
        Some((id, p1)) => {
            match get_u8(b, p1) {
                None => None,
                Some((kind, p2)) => Some((OpModel::Create { id, kind }, p2)),
            }
        },
    }
}

#[verifier::opaque]
pub open spec fn get_set_text_op(b: Seq<u8>, p: int, st: Seq<Seq<char>>) -> Parsed<OpModel> {
    match get_u32(b, p) {
        None => None,
        Some((id, p1)) => {
            match get_str(b, p1, st) {
                None => None,
                Some((text, p2)) => Some((OpModel::SetText { id, text }, p2)),
            }
        },
    }
}

#[verifier::opaque]
pub open spec fn get_text_props_op(b: Seq<u8>, p: int, st: Seq<Seq<char>>) -> Parsed<OpModel> {
    match get_u32(b, p) {
        None => None,
        Some((id, p1)) => {
            match get_scalar(b, p1) {
                None => None,
                Some((font_size, p2)) => {
                    match get_u32(b, p2) {
                        None => None,
                        Some((color, p3)) => Some(
                            (OpModel::TextProps { id, font_size, color }, p3),
                        ),
                    }
                },
            }
        },
    }
}

#[verifier::opaque]
pub open spec fn get_set_style_op(b: Seq<u8>, p: int, st: Seq<Seq<char>>) -> Parsed<OpModel> {
    match get_u32(b, p) {
        None => None,
        Some((id, p1)) => {
            match get_u32(b, p1) {
                None => None,
                Some((wire_style, p2)) => Some((OpModel::SetStyle { id, wire_style }, p2)),
            }
        },
    }
}

#[verifier::opaque]
pub open spec fn get_place_op(b: Seq<u8>, p: int, st: Seq<Seq<char>>) -> Parsed<OpModel> {
    match get_u32(b, p) {
        None => None,
        Some((parent, p1)) => {
            match get_u32(b, p1) {
                None => None,
                Some((child, p2)) => {
                    match get_u32(b, p2) {
                        None => None,
                        Some((before, p3)) => Some((OpModel::Place { parent, child, before }, p3)),
                    }
                },
            }
        },
    }
}

#[verifier::opaque]
pub open spec fn get_detach_op(b: Seq<u8>, p: int, st: Seq<Seq<char>>) -> Parsed<OpModel> {
    match get_u32(b, p) {
        None => None,
        Some((id, p1)) => Some((OpModel::Detach { id }, p1)),
    }
}

#[verifier::opaque]
pub open spec fn get_remove_op(b: Seq<u8>, p: int, st: Seq<Seq<char>>) -> Parsed<OpModel> {
    match get_u32(b, p) {
        None => None,
        Some((id, p1)) => Some((OpModel::Remove { id }, p1)),
    }
}

#[verifier::opaque]
pub open spec fn get_hidden_op(b: Seq<u8>, p: int, st: Seq<Seq<char>>) -> Parsed<OpModel> {
    match get_u32(b, p) {
        None => None,
        Some((id, p1)) => {
            match get_bool(b, p1) {
                None => None,
                Some((hidden, p2)) => Some((OpModel::Hidden { id, hidden }, p2)),
            }
        },
    }
}

#[verifier::opaque]
pub open spec fn get_style_op(b: Seq<u8>, p: int, st: Seq<Seq<char>>) -> Parsed<OpModel> {
    match get_u32(b, p) {
        None => None,
        Some((wire_id, p1)) => {
            match get_style(b, p1) {
                None => None,
                Some((style, p2)) => Some((OpModel::Style { wire_id, style }, p2)),
            }
        },
    }
}

#[verifier::opaque]
pub open spec fn get_view_paint_op(b: Seq<u8>, p: int, st: Seq<Seq<char>>) -> Parsed<OpModel> {
    match get_u32(b, p) {
        None => None,
        Some((id, p1)) => {
            match get_u32(b, p1) {
                None => None,
                Some((color, p2)) => Some((OpModel::ViewPaint { id, color }, p2)),
            }
        },
    }
}

#[verifier::opaque]
pub open spec fn get_paint_op(b: Seq<u8>, p: int, st: Seq<Seq<char>>) -> Parsed<OpModel> {
    match get_u32(b, p) {
        None => None,
        Some((id, p1)) => {
            match get_paint(b, p1) {
                None => None,
                Some((paint, p2)) => Some((OpModel::Paint { id, paint }, p2)),
            }
        },
    }
}

#[verifier::opaque]
pub open spec fn get_props_op(b: Seq<u8>, p: int, st: Seq<Seq<char>>) -> Parsed<OpModel> {
    match get_u32(b, p) {
        None => None,
        Some((id, p1)) => {
            match get_u32(b, p1) {
                None => None,
                Some((listeners, p2)) => {
                    match get_bool(b, p2) {
                        None => None,
                        Some((focusable, p3)) => Some(
                            (OpModel::Props { id, listeners, focusable }, p3),
                        ),
                    }
                },
            }
        },
    }
}

#[verifier::opaque]
pub open spec fn get_input_props_op(b: Seq<u8>, p: int, st: Seq<Seq<char>>) -> Parsed<OpModel> {
    match get_u32(b, p) {
        None => None,
        Some((id, p1)) => {
            match get_scalar(b, p1) {
                None => None,
                Some((font_size, p2)) => {
                    match get_u32(b, p2) {
                        None => None,
                        Some((color, p3)) => {
                            match get_str(b, p3, st) {
                                None => None,
                                Some((placeholder, p4)) => {
                                    match get_bool(b, p4) {
                                        None => None,
                                        Some((multiline, p5)) => Some(
                                            (
                                                OpModel::InputProps {
                                                    id,
                                                    font_size,
                                                    color,
                                                    placeholder,
                                                    multiline,
                                                },
                                                p5,
                                            ),
                                        ),
                                    }
                                },
                            }
                        },
                    }
                },
            }
        },
    }
}

#[verifier::opaque]
pub open spec fn get_command_op(b: Seq<u8>, p: int, st: Seq<Seq<char>>) -> Parsed<OpModel> {
    match get_u32(b, p) {
        None => None,
        Some((id, p1)) => {
            match get_cmd(b, p1, st) {
                None => None,
                Some((cmd, p2)) => Some((OpModel::Command { id, cmd }, p2)),
            }
        },
    }
}

#[verifier::opaque]
pub open spec fn get_custom_op(b: Seq<u8>, p: int, st: Seq<Seq<char>>) -> Parsed<OpModel> {
    match get_u32(b, p) {
        None => None,
        Some((id, p1)) => {
            match get_u32(b, p1) {
                None => None,
                Some((tag, p2)) => {
                    match get_payload(b, p2) {
                        None => None,
                        Some((data, p3)) => {
                            match get_str(b, p3, st) {
                                None => None,
                                Some((text, p4)) => Some(
                                    (OpModel::Custom { id, tag, data, text }, p4),
                                ),
                            }
                        },
                    }
                },
            }
        },
    }
}

#[verifier::opaque]
pub open spec fn get_label_op(b: Seq<u8>, p: int, st: Seq<Seq<char>>) -> Parsed<OpModel> {
    match get_u32(b, p) {
        None => None,
        Some((id, p1)) => {
            match get_str(b, p1, st) {
                None => None,
                Some((text, p2)) => Some((OpModel::Label { id, text }, p2)),
            }
        },
    }
}

/// Reads the fields of an op.
pub open spec fn get_body(tag: u8, b: Seq<u8>, p: int, st: Seq<Seq<char>>) -> Parsed<OpModel> {
    if tag == CREATE {
        get_create_op(b, p, st)
    } else if tag == SET_TEXT {
        get_set_text_op(b, p, st)
    } else if tag == TEXT_PROPS {
        get_text_props_op(b, p, st)
    } else if tag == SET_STYLE {
        get_set_style_op(b, p, st)
    } else if tag == PLACE {
        get_place_op(b, p, st)
    } else if tag == DETACH {
        get_detach_op(b, p, st)
    } else if tag == REMOVE {
        get_remove_op(b, p, st)
    } else if tag == HIDDEN {
        get_hidden_op(b, p, st)
    } else if tag == STYLE {
        get_style_op(b, p, st)
    } else if tag == VIEW_PAINT {
        get_view_paint_op(b, p, st)
    } else if tag == PAINT {
        get_paint_op(b, p, st)
    } else if tag == PROPS {
        get_props_op(b, p, st)
    } else if tag == INPUT_PROPS {
        get_input_props_op(b, p, st)
    } else if tag == COMMAND {
        get_command_op(b, p, st)
    } else if tag == CUSTOM {
        get_custom_op(b, p, st)
    } else if tag == LABEL {
        get_label_op(b, p, st)
    } else {
        None
    }
}

pub open spec fn get_op(b: Seq<u8>, p: int, st: Seq<Seq<char>>) -> Result<
    (OpModel, int),
    WireError,
> {
    match get_u8(b, p) {
        None => Err(WireError::Truncated),
        Some((tag, p1)) => if tag < CREATE || tag > LABEL {
            Err(WireError::BadOp(tag))
        } else {
            match get_body(tag, b, p1, st) {
                None => Err(WireError::Truncated),
                Some((op, p2)) => Ok((op, p2)),
            }
        },
    }
}

pub open spec fn put_ops(ops: Seq<OpModel>, st: Seq<Seq<char>>) -> Seq<u8>
    decreases ops.len(),
{
    if ops.len() == 0 {
        Seq::empty()
    } else {
        put_op(ops[0], st) + put_ops(ops.drop_first(), st)
    }
}

/// Reads ops up to the end of the buffer.
pub open spec fn get_ops(b: Seq<u8>, p: int, st: Seq<Seq<char>>) -> Result<Seq<OpModel>, WireError>
    decreases b.len() - p,
{
    if p >= b.len() {
        Ok(Seq::empty())
    } else {
        proof {
            lemma_op_advances(b, p, st);
        }
        match get_op(b, p, st) {
            Err(e) => Err(e),
            Ok((op, p1)) => match get_ops(b, p1, st) {
                Err(e) => Err(e),
                Ok(rest) => Ok(seq![op] + rest),
            },
        }
    }
}

// -------------------------------------------------------------- transactions

pub open spec fn put_txn(seq: u64, st: Seq<Seq<char>>, ops: Seq<OpModel>) -> Seq<u8> {
    put_u32(MAGIC) + (put_u16(VERSION) + (put_u16(0) + (put_u64(seq) + (put_u32(st.len() as u32) + (
    put_strings(st) + put_ops(ops, st))))))
}

/// What a buffer says, or why it says nothing.
pub open spec fn get_txn(b: Seq<u8>) -> Result<TxnModel, WireError> {
    match get_u32(b, 0) {
        None => Err(WireError::Truncated),
        Some((magic, p1)) => if magic != MAGIC {
            Err(WireError::BadMagic)
        } else {
            match get_u16(b, p1) {
                None => Err(WireError::Truncated),
                Some((version, p2)) => if version != VERSION {
                    Err(WireError::BadVersion(version))
                } else {
                    match get_u16(b, p2) {
                        None => Err(WireError::Truncated),
                        Some((flags, p3)) => get_rest(b, p3),
                    }
                },
            }
        },
    }
}

/// The part of a transaction behind its flags.
pub open spec fn get_rest(b: Seq<u8>, p: int) -> Result<TxnModel, WireError> {
    match get_u64(b, p) {
        None => Err(WireError::Truncated),
        Some((seq, p1)) => match get_u32(b, p1) {
            None => Err(WireError::Truncated),
            Some((n, p2)) => match get_strings(b, p2, 0, n as int) {
                Err(e) => Err(e),
                Ok((st, p3)) => match get_ops(b, p3, st) {
                    Err(e) => Err(e),
                    Ok(ops) => Ok(TxnModel { seq, ops }),
                },
            },
        },
    }
}

// -------------------------------------------------------------------- proofs

/// True of an op that a string table serves: its text is in the table.
pub open spec fn listed(op: OpModel, st: Seq<Seq<char>>) -> bool {
    match op {
        OpModel::SetText { text, .. } => st.contains(text),
        OpModel::InputProps { placeholder, .. } => st.contains(placeholder),
        OpModel::Command { cmd: CommandModel::SetInputText(text), .. } => st.contains(text),
        OpModel::Custom { text, .. } => st.contains(text),
        OpModel::Label { text, .. } => st.contains(text),
        _ => true,
    }
}

/// True of an op that the wire carries whole.
pub open spec fn faithful(op: OpModel) -> bool {
    op matches OpModel::Style { style, .. } ==> carried(style)
}

/// An op as it is received: its style as the wire carries it, and all else as
/// written.
pub open spec fn read_back(op: OpModel) -> OpModel {
    match op {
        OpModel::Style { wire_id, style } => OpModel::Style { wire_id, style: received(style) },
        _ => op,
    }
}

/// Ops as they are received, in order.
pub open spec fn arrived(ops: Seq<OpModel>) -> Seq<OpModel> {
    Seq::new(ops.len(), |i: int| read_back(ops[i]))
}

pub proof fn lemma_slot(st: Seq<Seq<char>>, text: Seq<char>)
    ensures
        0 <= slot(st, text) <= st.len(),
        st.contains(text) <==> slot(st, text) < st.len(),
        slot(st, text) < st.len() ==> st[slot(st, text)] == text,
        forall|i: int| 0 <= i < slot(st, text) ==> st[i] != text,
    decreases st.len(),
{
    if st.len() > 0 && st[0] != text {
        let t = st.drop_first();
        lemma_slot(t, text);
        if st.contains(text) {
            let i = choose|i: int| 0 <= i < st.len() && st[i] == text;
            assert(t[i - 1] == text);
        }
        assert forall|i: int| 0 <= i < slot(st, text) implies st[i] != text by {
            if i > 0 {
                assert(st[i] == t[i - 1]);
            }
        }
        if slot(st, text) < st.len() {
            assert(st[slot(st, text)] == t[slot(t, text)]);
        }
    }
}

/// A string keeps its index when the table grows.
pub proof fn lemma_slot_push(st: Seq<Seq<char>>, more: Seq<char>, text: Seq<char>)
    requires
        st.contains(text),
    ensures
        slot(st.push(more), text) == slot(st, text),
        st.push(more).contains(text),
{
    lemma_slot(st, text);
    lemma_slot(st.push(more), text);
    let k = slot(st, text);
    assert(st.push(more)[k] == text);
}

proof fn lemma_str(b: Seq<u8>, p: int, text: Seq<char>, st: Seq<Seq<char>>)
    requires
        holds(b, p, put_str(text, st)),
        st.contains(text),
        st.len() <= u32::MAX,
    ensures
        get_str(b, p, st) == Some((text, p + 4)),
{
    lemma_slot(st, text);
    lemma_u32(b, p, slot(st, text) as u32);
}

proof fn lemma_paint(b: Seq<u8>, p: int, v: PaintParts)
    requires
        holds(b, p, put_paint(v)),
    ensures
        get_paint(b, p) == Some((v, p + put_paint(v).len())),
{
    let m = put_u8(paint_mask(v));
    let f = put_fill(v.fill);
    let r = put_radius(v.radius);
    let d = put_border(v.border);
    lemma_holds_split(b, p, m, f + (r + d));
    lemma_holds_split(b, p + 1, f, r + d);
    lemma_holds_split(b, p + 1 + f.len(), r, d);
    lemma_u8(b, p, paint_mask(v));
    if let Some(color) = v.fill {
        lemma_u32(b, p + 1, color);
    }
    if let Some(radius) = v.radius {
        lemma_scalar(b, p + 1 + f.len(), radius);
    }
    if let Some((color, width)) = v.border {
        let q = p + 1 + f.len() + r.len();
        lemma_holds_split(b, q, put_u32(color), put_u32(width.0));
        lemma_u32(b, q, color);
        lemma_scalar(b, q + 4, width);
    }
}

proof fn lemma_cmd(b: Seq<u8>, p: int, v: CommandModel, st: Seq<Seq<char>>)
    requires
        holds(b, p, put_cmd(v, st)),
        st.len() <= u32::MAX,
        v matches CommandModel::SetInputText(text) ==> st.contains(text),
    ensures
        get_cmd(b, p, st) == Some((v, p + put_cmd(v, st).len())),
{
    match v {
        CommandModel::Focus => lemma_u8(b, p, 0),
        CommandModel::Blur => lemma_u8(b, p, 1),
        CommandModel::SetInputText(text) => {
            lemma_holds_split(b, p, put_u8(2), put_str(text, st));
            lemma_u8(b, p, 2);
            lemma_str(b, p + 1, text, st);
        },
        CommandModel::ScrollTo(x, y) => {
            lemma_holds_split(b, p, put_u8(3), put_u32(x.0) + put_u32(y.0));
            lemma_holds_split(b, p + 1, put_u32(x.0), put_u32(y.0));
            lemma_u8(b, p, 3);
            lemma_scalar(b, p + 1, x);
            lemma_scalar(b, p + 5, y);
        },
    }
}

proof fn lemma_payload(b: Seq<u8>, p: int, v: Payload)
    requires
        holds(b, p, put_payload(v)),
    ensures
        get_payload(b, p) == Some((v, p + put_payload(v).len())),
{
    let x = put_u32(v.0.0);
    let y = put_u32(v.1.0);
    let z = put_u32(v.2.0);
    let u = put_u32(v.3.0);
    lemma_holds_split(b, p, x, y + (z + u));
    lemma_holds_split(b, p + 4, y, z + u);
    lemma_holds_split(b, p + 8, z, u);
    lemma_scalar(b, p, v.0);
    lemma_scalar(b, p + 4, v.1);
    lemma_scalar(b, p + 8, v.2);
    lemma_scalar(b, p + 12, v.3);
}

proof fn lemma_style(b: Seq<u8>, p: int, v: Style)
    requires
        holds(b, p, put_style(v)),
    ensures
        get_style(b, p) == Some((received(v), p + put_style(v).len())),
{
    lemma_holds_split(b, p, put_u64(ALL), put_fields(0, v, ALL));
    lemma_u64(b, p, ALL);
    law_full_style_round_trip(b, p + 8, Style::initial(), v);
}

proof fn lemma_create_op(b: Seq<u8>, p: int, op: OpModel, st: Seq<Seq<char>>)
    requires
        op is Create,
        holds(b, p, put_body(op, st)),
        listed(op, st),
        st.len() <= u32::MAX,
    ensures
        get_create_op(b, p, st) == Some((op, p + put_body(op, st).len())),
{
    reveal(get_create_op);
    if let OpModel::Create { id, kind } = op {
        lemma_holds_split(b, p, put_u32(id), put_u8(kind));
        lemma_u32(b, p, id);
        lemma_u8(b, p + put_u32(id).len(), kind);
    }
}

proof fn lemma_create_advances(b: Seq<u8>, p: int, st: Seq<Seq<char>>)
    ensures
        get_create_op(b, p, st) matches Some((op, p1)) ==> p < p1 <= b.len(),
{
    reveal(get_create_op);
}

proof fn lemma_set_text_op(b: Seq<u8>, p: int, op: OpModel, st: Seq<Seq<char>>)
    requires
        op is SetText,
        holds(b, p, put_body(op, st)),
        listed(op, st),
        st.len() <= u32::MAX,
    ensures
        get_set_text_op(b, p, st) == Some((op, p + put_body(op, st).len())),
{
    reveal(get_set_text_op);
    if let OpModel::SetText { id, text } = op {
        lemma_holds_split(b, p, put_u32(id), put_str(text, st));
        lemma_u32(b, p, id);
        lemma_str(b, p + put_u32(id).len(), text, st);
    }
}

proof fn lemma_set_text_advances(b: Seq<u8>, p: int, st: Seq<Seq<char>>)
    ensures
        get_set_text_op(b, p, st) matches Some((op, p1)) ==> p < p1 <= b.len(),
{
    reveal(get_set_text_op);
}

proof fn lemma_text_props_op(b: Seq<u8>, p: int, op: OpModel, st: Seq<Seq<char>>)
    requires
        op is TextProps,
        holds(b, p, put_body(op, st)),
        listed(op, st),
        st.len() <= u32::MAX,
    ensures
        get_text_props_op(b, p, st) == Some((op, p + put_body(op, st).len())),
{
    reveal(get_text_props_op);
    if let OpModel::TextProps { id, font_size, color } = op {
        lemma_holds_split(b, p, put_u32(id), put_u32(font_size.0) + put_u32(color));
        lemma_u32(b, p, id);
        lemma_holds_split(b, p + put_u32(id).len(), put_u32(font_size.0), put_u32(color));
        lemma_scalar(b, p + put_u32(id).len(), font_size);
        lemma_u32(b, p + put_u32(id).len() + put_u32(font_size.0).len(), color);
    }
}

proof fn lemma_text_props_advances(b: Seq<u8>, p: int, st: Seq<Seq<char>>)
    ensures
        get_text_props_op(b, p, st) matches Some((op, p1)) ==> p < p1 <= b.len(),
{
    reveal(get_text_props_op);
}

proof fn lemma_set_style_op(b: Seq<u8>, p: int, op: OpModel, st: Seq<Seq<char>>)
    requires
        op is SetStyle,
        holds(b, p, put_body(op, st)),
        listed(op, st),
        st.len() <= u32::MAX,
    ensures
        get_set_style_op(b, p, st) == Some((op, p + put_body(op, st).len())),
{
    reveal(get_set_style_op);
    if let OpModel::SetStyle { id, wire_style } = op {
        lemma_holds_split(b, p, put_u32(id), put_u32(wire_style));
        lemma_u32(b, p, id);
        lemma_u32(b, p + put_u32(id).len(), wire_style);
    }
}

proof fn lemma_set_style_advances(b: Seq<u8>, p: int, st: Seq<Seq<char>>)
    ensures
        get_set_style_op(b, p, st) matches Some((op, p1)) ==> p < p1 <= b.len(),
{
    reveal(get_set_style_op);
}

proof fn lemma_place_op(b: Seq<u8>, p: int, op: OpModel, st: Seq<Seq<char>>)
    requires
        op is Place,
        holds(b, p, put_body(op, st)),
        listed(op, st),
        st.len() <= u32::MAX,
    ensures
        get_place_op(b, p, st) == Some((op, p + put_body(op, st).len())),
{
    reveal(get_place_op);
    if let OpModel::Place { parent, child, before } = op {
        lemma_holds_split(b, p, put_u32(parent), put_u32(child) + put_u32(before));
        lemma_u32(b, p, parent);
        lemma_holds_split(b, p + put_u32(parent).len(), put_u32(child), put_u32(before));
        lemma_u32(b, p + put_u32(parent).len(), child);
        lemma_u32(b, p + put_u32(parent).len() + put_u32(child).len(), before);
    }
}

proof fn lemma_place_advances(b: Seq<u8>, p: int, st: Seq<Seq<char>>)
    ensures
        get_place_op(b, p, st) matches Some((op, p1)) ==> p < p1 <= b.len(),
{
    reveal(get_place_op);
}

proof fn lemma_detach_op(b: Seq<u8>, p: int, op: OpModel, st: Seq<Seq<char>>)
    requires
        op is Detach,
        holds(b, p, put_body(op, st)),
        listed(op, st),
        st.len() <= u32::MAX,
    ensures
        get_detach_op(b, p, st) == Some((op, p + put_body(op, st).len())),
{
    reveal(get_detach_op);
    if let OpModel::Detach { id } = op {
        lemma_u32(b, p, id);
    }
}

proof fn lemma_detach_advances(b: Seq<u8>, p: int, st: Seq<Seq<char>>)
    ensures
        get_detach_op(b, p, st) matches Some((op, p1)) ==> p < p1 <= b.len(),
{
    reveal(get_detach_op);
}

proof fn lemma_remove_op(b: Seq<u8>, p: int, op: OpModel, st: Seq<Seq<char>>)
    requires
        op is Remove,
        holds(b, p, put_body(op, st)),
        listed(op, st),
        st.len() <= u32::MAX,
    ensures
        get_remove_op(b, p, st) == Some((op, p + put_body(op, st).len())),
{
    reveal(get_remove_op);
    if let OpModel::Remove { id } = op {
        lemma_u32(b, p, id);
    }
}

proof fn lemma_remove_advances(b: Seq<u8>, p: int, st: Seq<Seq<char>>)
    ensures
        get_remove_op(b, p, st) matches Some((op, p1)) ==> p < p1 <= b.len(),
{
    reveal(get_remove_op);
}

proof fn lemma_hidden_op(b: Seq<u8>, p: int, op: OpModel, st: Seq<Seq<char>>)
    requires
        op is Hidden,
        holds(b, p, put_body(op, st)),
        listed(op, st),
        st.len() <= u32::MAX,
    ensures
        get_hidden_op(b, p, st) == Some((op, p + put_body(op, st).len())),
{
    reveal(get_hidden_op);
    if let OpModel::Hidden { id, hidden } = op {
        lemma_holds_split(b, p, put_u32(id), put_bool(hidden));
        lemma_u32(b, p, id);
        lemma_bool(b, p + put_u32(id).len(), hidden);
    }
}

proof fn lemma_hidden_advances(b: Seq<u8>, p: int, st: Seq<Seq<char>>)
    ensures
        get_hidden_op(b, p, st) matches Some((op, p1)) ==> p < p1 <= b.len(),
{
    reveal(get_hidden_op);
}

proof fn lemma_style_op(b: Seq<u8>, p: int, op: OpModel, st: Seq<Seq<char>>)
    requires
        op is Style,
        holds(b, p, put_body(op, st)),
        listed(op, st),
        st.len() <= u32::MAX,
    ensures
        get_style_op(b, p, st) == Some((read_back(op), p + put_body(op, st).len())),
{
    reveal(get_style_op);
    if let OpModel::Style { wire_id, style } = op {
        lemma_holds_split(b, p, put_u32(wire_id), put_style(style));
        lemma_u32(b, p, wire_id);
        lemma_style(b, p + put_u32(wire_id).len(), style);
    }
}

proof fn lemma_style_advances(b: Seq<u8>, p: int, st: Seq<Seq<char>>)
    ensures
        get_style_op(b, p, st) matches Some((op, p1)) ==> p < p1 <= b.len(),
{
    reveal(get_style_op);
    if let Some((id, p1)) = get_u32(b, p) {
        if let Some((mask, p2)) = get_u64(b, p1) {
            super::fields::lemma_fields_advance(0, b, p2, Style::initial(), mask);
        }
    }
}

proof fn lemma_view_paint_op(b: Seq<u8>, p: int, op: OpModel, st: Seq<Seq<char>>)
    requires
        op is ViewPaint,
        holds(b, p, put_body(op, st)),
        listed(op, st),
        st.len() <= u32::MAX,
    ensures
        get_view_paint_op(b, p, st) == Some((op, p + put_body(op, st).len())),
{
    reveal(get_view_paint_op);
    if let OpModel::ViewPaint { id, color } = op {
        lemma_holds_split(b, p, put_u32(id), put_u32(color));
        lemma_u32(b, p, id);
        lemma_u32(b, p + put_u32(id).len(), color);
    }
}

proof fn lemma_view_paint_advances(b: Seq<u8>, p: int, st: Seq<Seq<char>>)
    ensures
        get_view_paint_op(b, p, st) matches Some((op, p1)) ==> p < p1 <= b.len(),
{
    reveal(get_view_paint_op);
}

proof fn lemma_paint_op(b: Seq<u8>, p: int, op: OpModel, st: Seq<Seq<char>>)
    requires
        op is Paint,
        holds(b, p, put_body(op, st)),
        listed(op, st),
        st.len() <= u32::MAX,
    ensures
        get_paint_op(b, p, st) == Some((op, p + put_body(op, st).len())),
{
    reveal(get_paint_op);
    if let OpModel::Paint { id, paint } = op {
        lemma_holds_split(b, p, put_u32(id), put_paint(paint));
        lemma_u32(b, p, id);
        lemma_paint(b, p + put_u32(id).len(), paint);
    }
}

proof fn lemma_paint_advances(b: Seq<u8>, p: int, st: Seq<Seq<char>>)
    ensures
        get_paint_op(b, p, st) matches Some((op, p1)) ==> p < p1 <= b.len(),
{
    reveal(get_paint_op);
}

proof fn lemma_props_op(b: Seq<u8>, p: int, op: OpModel, st: Seq<Seq<char>>)
    requires
        op is Props,
        holds(b, p, put_body(op, st)),
        listed(op, st),
        st.len() <= u32::MAX,
    ensures
        get_props_op(b, p, st) == Some((op, p + put_body(op, st).len())),
{
    reveal(get_props_op);
    if let OpModel::Props { id, listeners, focusable } = op {
        lemma_holds_split(b, p, put_u32(id), put_u32(listeners) + put_bool(focusable));
        lemma_u32(b, p, id);
        lemma_holds_split(b, p + put_u32(id).len(), put_u32(listeners), put_bool(focusable));
        lemma_u32(b, p + put_u32(id).len(), listeners);
        lemma_bool(b, p + put_u32(id).len() + put_u32(listeners).len(), focusable);
    }
}

proof fn lemma_props_advances(b: Seq<u8>, p: int, st: Seq<Seq<char>>)
    ensures
        get_props_op(b, p, st) matches Some((op, p1)) ==> p < p1 <= b.len(),
{
    reveal(get_props_op);
}

proof fn lemma_input_props_op(b: Seq<u8>, p: int, op: OpModel, st: Seq<Seq<char>>)
    requires
        op is InputProps,
        holds(b, p, put_body(op, st)),
        listed(op, st),
        st.len() <= u32::MAX,
    ensures
        get_input_props_op(b, p, st) == Some((op, p + put_body(op, st).len())),
{
    reveal(get_input_props_op);
    if let OpModel::InputProps { id, font_size, color, placeholder, multiline } = op {
        lemma_holds_split(
            b,
            p,
            put_u32(id),
            put_u32(font_size.0) + (
                put_u32(color) + (put_str(placeholder, st) + put_bool(multiline))
            ),
        );
        lemma_u32(b, p, id);
        lemma_holds_split(
            b,
            p + put_u32(id).len(),
            put_u32(font_size.0),
            put_u32(color) + (put_str(placeholder, st) + put_bool(multiline)),
        );
        lemma_scalar(b, p + put_u32(id).len(), font_size);
        lemma_holds_split(
            b,
            p + put_u32(id).len() + put_u32(font_size.0).len(),
            put_u32(color),
            put_str(placeholder, st) + put_bool(multiline),
        );
        lemma_u32(b, p + put_u32(id).len() + put_u32(font_size.0).len(), color);
        lemma_holds_split(
            b,
            p + put_u32(id).len() + put_u32(font_size.0).len() + put_u32(color).len(),
            put_str(placeholder, st),
            put_bool(multiline),
        );
        lemma_str(
            b,
            p + put_u32(id).len() + put_u32(font_size.0).len() + put_u32(color).len(),
            placeholder,
            st,
        );
        lemma_bool(
            b,
            p + put_u32(id).len() + put_u32(font_size.0).len() + put_u32(color).len() + put_str(placeholder, st).len(),
            multiline,
        );
    }
}

proof fn lemma_input_props_advances(b: Seq<u8>, p: int, st: Seq<Seq<char>>)
    ensures
        get_input_props_op(b, p, st) matches Some((op, p1)) ==> p < p1 <= b.len(),
{
    reveal(get_input_props_op);
}

proof fn lemma_command_op(b: Seq<u8>, p: int, op: OpModel, st: Seq<Seq<char>>)
    requires
        op is Command,
        holds(b, p, put_body(op, st)),
        listed(op, st),
        st.len() <= u32::MAX,
    ensures
        get_command_op(b, p, st) == Some((op, p + put_body(op, st).len())),
{
    reveal(get_command_op);
    if let OpModel::Command { id, cmd } = op {
        lemma_holds_split(b, p, put_u32(id), put_cmd(cmd, st));
        lemma_u32(b, p, id);
        lemma_cmd(b, p + put_u32(id).len(), cmd, st);
    }
}

proof fn lemma_command_advances(b: Seq<u8>, p: int, st: Seq<Seq<char>>)
    ensures
        get_command_op(b, p, st) matches Some((op, p1)) ==> p < p1 <= b.len(),
{
    reveal(get_command_op);
}

proof fn lemma_custom_op(b: Seq<u8>, p: int, op: OpModel, st: Seq<Seq<char>>)
    requires
        op is Custom,
        holds(b, p, put_body(op, st)),
        listed(op, st),
        st.len() <= u32::MAX,
    ensures
        get_custom_op(b, p, st) == Some((op, p + put_body(op, st).len())),
{
    reveal(get_custom_op);
    if let OpModel::Custom { id, tag, data, text } = op {
        lemma_holds_split(
            b,
            p,
            put_u32(id),
            put_u32(tag) + (put_payload(data) + put_str(text, st)),
        );
        lemma_u32(b, p, id);
        lemma_holds_split(
            b,
            p + put_u32(id).len(),
            put_u32(tag),
            put_payload(data) + put_str(text, st),
        );
        lemma_u32(b, p + put_u32(id).len(), tag);
        lemma_holds_split(
            b,
            p + put_u32(id).len() + put_u32(tag).len(),
            put_payload(data),
            put_str(text, st),
        );
        lemma_payload(b, p + put_u32(id).len() + put_u32(tag).len(), data);
        lemma_str(
            b,
            p + put_u32(id).len() + put_u32(tag).len() + put_payload(data).len(),
            text,
            st,
        );
    }
}

proof fn lemma_custom_advances(b: Seq<u8>, p: int, st: Seq<Seq<char>>)
    ensures
        get_custom_op(b, p, st) matches Some((op, p1)) ==> p < p1 <= b.len(),
{
    reveal(get_custom_op);
}

proof fn lemma_label_op(b: Seq<u8>, p: int, op: OpModel, st: Seq<Seq<char>>)
    requires
        op is Label,
        holds(b, p, put_body(op, st)),
        listed(op, st),
        st.len() <= u32::MAX,
    ensures
        get_label_op(b, p, st) == Some((op, p + put_body(op, st).len())),
{
    reveal(get_label_op);
    if let OpModel::Label { id, text } = op {
        lemma_holds_split(b, p, put_u32(id), put_str(text, st));
        lemma_u32(b, p, id);
        lemma_str(b, p + put_u32(id).len(), text, st);
    }
}

proof fn lemma_label_advances(b: Seq<u8>, p: int, st: Seq<Seq<char>>)
    ensures
        get_label_op(b, p, st) matches Some((op, p1)) ==> p < p1 <= b.len(),
{
    reveal(get_label_op);
}

/// Reading the bytes of an op gives the op as it is received.
proof fn lemma_op(b: Seq<u8>, p: int, op: OpModel, st: Seq<Seq<char>>)
    requires
        holds(b, p, put_op(op, st)),
        listed(op, st),
        st.len() <= u32::MAX,
    ensures
        get_op(b, p, st) == Ok::<(OpModel, int), WireError>(
            (read_back(op), p + put_op(op, st).len()),
        ),
{
    lemma_holds_split(b, p, put_u8(op_tag(op)), put_body(op, st));
    lemma_u8(b, p, op_tag(op));
    let q = p + 1;
    match op {
        OpModel::Create { .. } => lemma_create_op(b, q, op, st),
        OpModel::SetText { .. } => lemma_set_text_op(b, q, op, st),
        OpModel::TextProps { .. } => lemma_text_props_op(b, q, op, st),
        OpModel::SetStyle { .. } => lemma_set_style_op(b, q, op, st),
        OpModel::Place { .. } => lemma_place_op(b, q, op, st),
        OpModel::Detach { .. } => lemma_detach_op(b, q, op, st),
        OpModel::Remove { .. } => lemma_remove_op(b, q, op, st),
        OpModel::Hidden { .. } => lemma_hidden_op(b, q, op, st),
        OpModel::Style { .. } => lemma_style_op(b, q, op, st),
        OpModel::ViewPaint { .. } => lemma_view_paint_op(b, q, op, st),
        OpModel::Paint { .. } => lemma_paint_op(b, q, op, st),
        OpModel::Props { .. } => lemma_props_op(b, q, op, st),
        OpModel::InputProps { .. } => lemma_input_props_op(b, q, op, st),
        OpModel::Command { .. } => lemma_command_op(b, q, op, st),
        OpModel::Custom { .. } => lemma_custom_op(b, q, op, st),
        OpModel::Label { .. } => lemma_label_op(b, q, op, st),
    }
}

/// A reader of ops never stands still, nor leaves the buffer.
pub proof fn lemma_op_advances(b: Seq<u8>, p: int, st: Seq<Seq<char>>)
    requires
        p < b.len(),
    ensures
        get_op(b, p, st) matches Ok((op, p1)) ==> p < p1 <= b.len(),
{
    let q = p + 1;
    lemma_create_advances(b, q, st);
    lemma_set_text_advances(b, q, st);
    lemma_text_props_advances(b, q, st);
    lemma_set_style_advances(b, q, st);
    lemma_place_advances(b, q, st);
    lemma_detach_advances(b, q, st);
    lemma_remove_advances(b, q, st);
    lemma_hidden_advances(b, q, st);
    lemma_style_advances(b, q, st);
    lemma_view_paint_advances(b, q, st);
    lemma_paint_advances(b, q, st);
    lemma_props_advances(b, q, st);
    lemma_input_props_advances(b, q, st);
    lemma_command_advances(b, q, st);
    lemma_custom_advances(b, q, st);
    lemma_label_advances(b, q, st);
}
/// True of a string table that the format can hold.
pub open spec fn storable(st: Seq<Seq<char>>) -> bool {
    &&& st.len() <= u32::MAX
    &&& forall|i: int| 0 <= i < st.len() ==> encode_utf8(#[trigger] st[i]).len() <= u32::MAX
}

proof fn lemma_strings(b: Seq<u8>, p: int, st: Seq<Seq<char>>, i: int)
    requires
        holds(b, p, put_strings(st)),
        storable(st),
        0 <= i,
    ensures
        get_strings(b, p, i, i + st.len()) == Ok::<(Seq<Seq<char>>, int), WireError>(
            (st, p + put_strings(st).len()),
        ),
    decreases st.len(),
{
    if st.len() > 0 {
        let w = encode_utf8(st[0]);
        let rest = st.drop_first();
        let n = put_u32(w.len() as u32);
        lemma_holds_split(b, p, n, w + put_strings(rest));
        lemma_holds_split(b, p + 4, w, put_strings(rest));
        lemma_u32(b, p, w.len() as u32);
        vstd::utf8::encode_utf8_valid_utf8(st[0]);
        vstd::utf8::encode_utf8_decode_utf8(st[0]);
        assert forall|k: int| 0 <= k < rest.len() implies encode_utf8(#[trigger] rest[k]).len()
            <= u32::MAX by {
            assert(rest[k] == st[k + 1]);
        }
        lemma_strings(b, p + 4 + w.len(), rest, i + 1);
        assert(seq![st[0]] + rest =~= st);
    } else {
        assert(st =~= Seq::empty());
    }
}

proof fn lemma_ops(b: Seq<u8>, p: int, ops: Seq<OpModel>, st: Seq<Seq<char>>)
    requires
        holds(b, p, put_ops(ops, st)),
        p + put_ops(ops, st).len() == b.len(),
        st.len() <= u32::MAX,
        forall|i: int| 0 <= i < ops.len() ==> listed(#[trigger] ops[i], st),
    ensures
        get_ops(b, p, st) == Ok::<Seq<OpModel>, WireError>(arrived(ops)),
    decreases ops.len(),
{
    if ops.len() > 0 {
        let rest = ops.drop_first();
        let w = put_op(ops[0], st);
        assert(w.len() >= 1);
        lemma_holds_split(b, p, w, put_ops(rest, st));
        lemma_op(b, p, ops[0], st);
        assert forall|i: int| 0 <= i < rest.len() implies listed(#[trigger] rest[i], st) by {
            assert(rest[i] == ops[i + 1]);
        }
        lemma_ops(b, p + w.len(), rest, st);
        assert(seq![read_back(ops[0])] + arrived(rest) =~= arrived(ops));
    } else {
        assert(arrived(ops) =~= Seq::empty());
    }
}

/// The bytes of a longer op stream are the bytes of the shorter one and
/// those of the last op.
pub proof fn lemma_put_ops_push(ops: Seq<OpModel>, op: OpModel, st: Seq<Seq<char>>)
    ensures
        put_ops(ops.push(op), st) == put_ops(ops, st) + put_op(op, st),
    decreases ops.len(),
{
    if ops.len() == 0 {
        assert(ops.push(op).drop_first() =~= ops);
        assert(put_ops(ops.push(op), st) =~= put_op(op, st) + put_ops(ops, st));
        assert(put_ops(ops, st) + put_op(op, st) =~= put_op(op, st) + put_ops(ops, st));
    } else {
        let rest = ops.drop_first();
        assert(ops.push(op).drop_first() =~= rest.push(op));
        lemma_put_ops_push(rest, op, st);
        assert(put_ops(ops.push(op), st) =~= put_op(ops[0], st) + (put_ops(rest, st) + put_op(
            op,
            st,
        )));
    }
}

/// A string table that grows leaves the bytes of earlier ops as they are.
pub proof fn lemma_put_ops_table(ops: Seq<OpModel>, st: Seq<Seq<char>>, more: Seq<char>)
    requires
        forall|i: int| 0 <= i < ops.len() ==> listed(#[trigger] ops[i], st),
    ensures
        put_ops(ops, st.push(more)) == put_ops(ops, st),
        forall|i: int| 0 <= i < ops.len() ==> listed(#[trigger] ops[i], st.push(more)),
    decreases ops.len(),
{
    if ops.len() > 0 {
        let rest = ops.drop_first();
        assert forall|i: int| 0 <= i < rest.len() implies listed(#[trigger] rest[i], st) by {
            assert(rest[i] == ops[i + 1]);
        }
        lemma_put_ops_table(rest, st, more);
        lemma_put_op_table(ops[0], st, more);
        assert forall|i: int| 0 <= i < ops.len() implies listed(#[trigger] ops[i], st.push(more)) by {
            if i > 0 {
                assert(rest[i - 1] == ops[i]);
            }
        }
    }
}

proof fn lemma_put_op_table(op: OpModel, st: Seq<Seq<char>>, more: Seq<char>)
    requires
        listed(op, st),
    ensures
        put_op(op, st.push(more)) == put_op(op, st),
        listed(op, st.push(more)),
{
    match op {
        OpModel::SetText { text, .. } => lemma_slot_push(st, more, text),
        OpModel::InputProps { placeholder, .. } => lemma_slot_push(st, more, placeholder),
        OpModel::Command { cmd: CommandModel::SetInputText(text), .. } => lemma_slot_push(
            st,
            more,
            text,
        ),
        OpModel::Custom { text, .. } => lemma_slot_push(st, more, text),
        OpModel::Label { text, .. } => lemma_slot_push(st, more, text),
        _ => {},
    }
}

/// What lies behind the flags of a transaction.
spec fn put_rest(seq: u64, st: Seq<Seq<char>>, ops: Seq<OpModel>) -> Seq<u8> {
    put_u64(seq) + (put_u32(st.len() as u32) + (put_strings(st) + put_ops(ops, st)))
}

proof fn lemma_rest(b: Seq<u8>, p: int, seq: u64, st: Seq<Seq<char>>, ops: Seq<OpModel>)
    requires
        holds(b, p, put_rest(seq, st, ops)),
        p + put_rest(seq, st, ops).len() == b.len(),
        storable(st),
        forall|i: int| 0 <= i < ops.len() ==> listed(#[trigger] ops[i], st),
    ensures
        get_rest(b, p) == Ok::<TxnModel, WireError>(TxnModel { seq, ops: arrived(ops) }),
{
    let r5 = put_strings(st) + put_ops(ops, st);
    let r4 = put_u32(st.len() as u32) + r5;
    assert(put_rest(seq, st, ops) == put_u64(seq) + r4);
    lemma_u64_first(b, p, seq, r4);
    lemma_u32_first(b, p + 8, st.len() as u32, r5);
    lemma_holds_split(b, p + 12, put_strings(st), put_ops(ops, st));
    lemma_strings(b, p + 12, st, 0);
    lemma_ops(b, p + 12 + put_strings(st).len(), ops, st);
}

/// The head of a transaction in front of something else.
proof fn lemma_head(b: Seq<u8>, rest: Seq<u8>)
    requires
        b == put_u32(MAGIC) + (put_u16(VERSION) + (put_u16(0) + rest)),
    ensures
        get_txn(b) == get_rest(b, 8),
        holds(b, 8, rest),
        b.len() == 8 + rest.len(),
{
    let r2 = put_u16(0) + rest;
    let r1 = put_u16(VERSION) + r2;
    assert(b.subrange(0, b.len() as int) =~= b);
    lemma_u32_first(b, 0, MAGIC, r1);
    lemma_u16_first(b, 4, VERSION, r2);
    lemma_u16_first(b, 6, 0, rest);
}

/// What is written is what is read: the bytes of a transaction decode to its
/// sequence number and its ops, in order. An aspect ratio that is a NaN is
/// the one value that the wire does not carry: it arrives as missing, and all
/// else arrives as written.
pub proof fn law_transaction_round_trip(seq: u64, st: Seq<Seq<char>>, ops: Seq<OpModel>)
    requires
        storable(st),
        forall|i: int| 0 <= i < ops.len() ==> listed(#[trigger] ops[i], st),
    ensures
        get_txn(put_txn(seq, st, ops)) == Ok::<TxnModel, WireError>(
            TxnModel { seq, ops: arrived(ops) },
        ),
        (forall|i: int| 0 <= i < ops.len() ==> faithful(#[trigger] ops[i])) ==> arrived(ops) == ops,
{
    let b = put_txn(seq, st, ops);
    let rest = put_rest(seq, st, ops);
    lemma_head(b, rest);
    lemma_rest(b, 8, seq, st, ops);
    if forall|i: int| 0 <= i < ops.len() ==> faithful(#[trigger] ops[i]) {
        assert forall|i: int| 0 <= i < ops.len() implies read_back(ops[i]) == ops[i] by {
            assert(faithful(ops[i]));
        }
        assert(arrived(ops) =~= ops);
    }
}

/// An op that is added arrives last, behind what arrived without it, whatever
/// was written before.
pub proof fn law_added_op_arrives_last(
    seq: u64,
    st: Seq<Seq<char>>,
    ops: Seq<OpModel>,
    more: Seq<Seq<char>>,
    op: OpModel,
)
    requires
        storable(st),
        storable(more),
        forall|i: int| 0 <= i < ops.len() ==> listed(#[trigger] ops[i], st),
        forall|i: int| 0 <= i < ops.len() ==> listed(#[trigger] ops[i], more),
        listed(op, more),
    ensures
        get_txn(put_txn(seq, st, ops)) matches Ok(before) && get_txn(
            put_txn(seq, more, ops.push(op)),
        ) == Ok::<TxnModel, WireError>(TxnModel { seq, ops: before.ops.push(read_back(op)) }),
        faithful(op) ==> read_back(op) == op,
{
    law_transaction_round_trip(seq, st, ops);
    let all = ops.push(op);
    assert forall|i: int| 0 <= i < all.len() implies listed(#[trigger] all[i], more) by {
        if i < ops.len() {
            assert(all[i] == ops[i]);
        }
    }
    law_transaction_round_trip(seq, more, all);
    assert(arrived(all) =~= arrived(ops).push(read_back(op)));
}

} // verus!
