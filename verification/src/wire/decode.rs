//! Transaction decoder: linear in the buffer, without copying strings.

use super::bytes::{advanced, Parsed, Reader};
use super::format::{
    get_body, get_border, get_cmd, get_fill, get_op, get_ops, get_paint, get_payload, get_radius,
    get_rest, get_str, get_strings, get_style, get_txn, lemma_op_advances, Command, Op, OpModel,
    PaintParts, Payload, Txn, WireError, COMMAND, CREATE, CUSTOM, DETACH, HIDDEN, INPUT_PROPS,
    LABEL, MAGIC, PAINT, PLACE, PROPS, REMOVE, SET_STYLE, SET_TEXT, STYLE, TEXT_PROPS, VERSION,
    VIEW_PAINT,
};
use super::format::{
    get_command_op, get_create_op, get_custom_op, get_detach_op, get_hidden_op, get_input_props_op,
    get_label_op, get_paint_op, get_place_op, get_props_op, get_remove_op, get_set_style_op,
    get_set_text_op, get_style_op, get_text_props_op, get_view_paint_op,
};
use crate::scalar::Scalar;
use crate::style::Style;
use vstd::prelude::*;
use vstd::slice::slice_subrange;
use vstd::utf8::{decode_utf8, valid_utf8};

verus! {

/// Reads bytes as text through `std::str::from_utf8`. Claimed of it: it
/// succeeds exactly on well-formed UTF-8, and the text is what the bytes
/// encode.
#[verifier::external_body]
fn text_of<'a>(bytes: &'a [u8]) -> (r: Option<&'a str>)
    ensures
        r is Some <==> valid_utf8(bytes@),
        r matches Some(s) ==> s@ == decode_utf8(bytes@),
{
    std::str::from_utf8(bytes).ok()
}

/// What the strings of a table hold.
spec fn texts(strings: Seq<&str>) -> Seq<Seq<char>> {
    Seq::new(strings.len(), |i: int| strings[i]@)
}

/// As `advanced`, for a value that is compared by its view.
spec fn stepped<'a, T: View>(
    before: Reader<'a>,
    after: Reader<'a>,
    got: Option<T>,
    spec: Parsed<T::V>,
) -> bool {
    &&& after.buf == before.buf
    &&& after.pos <= after.buf@.len()
    &&& match spec {
        Some((v, p)) => got matches Some(x) && x@ == v && after.pos == p,
        None => got is None,
    }
}

impl<'a> Reader<'a> {
    fn string(&mut self, strings: &Vec<&'a str>) -> (r: Option<&'a str>)
        requires
            old(self).wf(),
        ensures
            stepped(
                *old(self),
                *final(self),
                r,
                get_str(old(self).buf@, old(self).pos as int, texts(strings@)),
            ),
    {
        match self.u32() {
            None => None,
            Some(i) => if (i as usize) < strings.len() {
                Some(strings[i as usize])
            } else {
                None
            },
        }
    }

    fn payload(&mut self) -> (r: Option<Payload>)
        requires
            old(self).wf(),
        ensures
            advanced(
                *old(self),
                *final(self),
                r,
                get_payload(old(self).buf@, old(self).pos as int),
            ),
    {
        let x: Scalar = match self.scalar() {
            Some(v) => v,
            None => {
                return None;
            },
        };
        let y: Scalar = match self.scalar() {
            Some(v) => v,
            None => {
                return None;
            },
        };
        let z: Scalar = match self.scalar() {
            Some(v) => v,
            None => {
                return None;
            },
        };
        match self.scalar() {
            Some(u) => Some(Payload(x, y, z, u)),
            None => None,
        }
    }

    fn fill(&mut self, on: bool) -> (r: Option<Option<u32>>)
        requires
            old(self).wf(),
        ensures
            advanced(
                *old(self),
                *final(self),
                r,
                get_fill(on, old(self).buf@, old(self).pos as int),
            ),
    {
        if !on {
            return Some(None);
        }
        match self.u32() {
            Some(v) => Some(Some(v)),
            None => None,
        }
    }

    fn radius(&mut self, on: bool) -> (r: Option<Option<Scalar>>)
        requires
            old(self).wf(),
        ensures
            advanced(
                *old(self),
                *final(self),
                r,
                get_radius(on, old(self).buf@, old(self).pos as int),
            ),
    {
        if !on {
            return Some(None);
        }
        match self.scalar() {
            Some(v) => Some(Some(v)),
            None => None,
        }
    }

    fn border(&mut self, on: bool) -> (r: Option<Option<(u32, Scalar)>>)
        requires
            old(self).wf(),
        ensures
            advanced(
                *old(self),
                *final(self),
                r,
                get_border(on, old(self).buf@, old(self).pos as int),
            ),
    {
        if !on {
            return Some(None);
        }
        match self.u32() {
            None => None,
            Some(color) => match self.scalar() {
                Some(width) => Some(Some((color, width))),
                None => None,
            },
        }
    }

    fn paint(&mut self) -> (r: Option<PaintParts>)
        requires
            old(self).wf(),
        ensures
            advanced(*old(self), *final(self), r, get_paint(old(self).buf@, old(self).pos as int)),
    {
        let mask: u8 = match self.u8() {
            Some(v) => v,
            None => {
                return None;
            },
        };
        let fill: Option<u32> = match self.fill(mask % 2 == 1) {
            Some(v) => v,
            None => {
                return None;
            },
        };
        let radius: Option<Scalar> = match self.radius(mask / 2 % 2 == 1) {
            Some(v) => v,
            None => {
                return None;
            },
        };
        match self.border(mask / 4 % 2 == 1) {
            Some(border) => Some(PaintParts { fill, radius, border }),
            None => None,
        }
    }

    fn cmd(&mut self, strings: &Vec<&'a str>) -> (r: Option<Command<'a>>)
        requires
            old(self).wf(),
        ensures
            stepped(
                *old(self),
                *final(self),
                r,
                get_cmd(old(self).buf@, old(self).pos as int, texts(strings@)),
            ),
    {
        let tag: u8 = match self.u8() {
            Some(v) => v,
            None => {
                return None;
            },
        };
        match tag {
            0 => Some(Command::Focus),
            1 => Some(Command::Blur),
            2 => match self.string(strings) {
                Some(text) => Some(Command::SetInputText(text)),
                None => None,
            },
            3 => match self.scalar() {
                None => None,
                Some(x) => match self.scalar() {
                    Some(y) => Some(Command::ScrollTo(x, y)),
                    None => None,
                },
            },
            _ => None,
        }
    }

    fn masked_style(&mut self) -> (r: Option<Style>)
        requires
            old(self).wf(),
        ensures
            advanced(*old(self), *final(self), r, get_style(old(self).buf@, old(self).pos as int)),
    {
        match self.u64() {
            None => None,
            Some(mask) => self.style(mask),
        }
    }

    fn create_op(&mut self, strings: &Vec<&'a str>) -> (r: Option<Op<'a>>)
        requires
            old(self).wf(),
        ensures
            stepped(
                *old(self),
                *final(self),
                r,
                get_create_op(old(self).buf@, old(self).pos as int, texts(strings@)),
            ),
    {
        proof {
            reveal(get_create_op);
        }
        let id: u32 = match self.u32() {
            Some(v) => v,
            None => {
                return None;
            },
        };
        match self.u8() {
            Some(kind) => Some(Op::Create { id, kind }),
            None => None,
        }
    }

    fn set_text_op(&mut self, strings: &Vec<&'a str>) -> (r: Option<Op<'a>>)
        requires
            old(self).wf(),
        ensures
            stepped(
                *old(self),
                *final(self),
                r,
                get_set_text_op(old(self).buf@, old(self).pos as int, texts(strings@)),
            ),
    {
        proof {
            reveal(get_set_text_op);
        }
        let id: u32 = match self.u32() {
            Some(v) => v,
            None => {
                return None;
            },
        };
        match self.string(strings) {
            Some(text) => Some(Op::SetText { id, text }),
            None => None,
        }
    }

    fn text_props_op(&mut self, strings: &Vec<&'a str>) -> (r: Option<Op<'a>>)
        requires
            old(self).wf(),
        ensures
            stepped(
                *old(self),
                *final(self),
                r,
                get_text_props_op(old(self).buf@, old(self).pos as int, texts(strings@)),
            ),
    {
        proof {
            reveal(get_text_props_op);
        }
        let id: u32 = match self.u32() {
            Some(v) => v,
            None => {
                return None;
            },
        };
        let font_size: Scalar = match self.scalar() {
            Some(v) => v,
            None => {
                return None;
            },
        };
        match self.u32() {
            Some(color) => Some(Op::TextProps { id, font_size, color }),
            None => None,
        }
    }

    fn set_style_op(&mut self, strings: &Vec<&'a str>) -> (r: Option<Op<'a>>)
        requires
            old(self).wf(),
        ensures
            stepped(
                *old(self),
                *final(self),
                r,
                get_set_style_op(old(self).buf@, old(self).pos as int, texts(strings@)),
            ),
    {
        proof {
            reveal(get_set_style_op);
        }
        let id: u32 = match self.u32() {
            Some(v) => v,
            None => {
                return None;
            },
        };
        match self.u32() {
            Some(wire_style) => Some(Op::SetStyle { id, wire_style }),
            None => None,
        }
    }

    fn place_op(&mut self, strings: &Vec<&'a str>) -> (r: Option<Op<'a>>)
        requires
            old(self).wf(),
        ensures
            stepped(
                *old(self),
                *final(self),
                r,
                get_place_op(old(self).buf@, old(self).pos as int, texts(strings@)),
            ),
    {
        proof {
            reveal(get_place_op);
        }
        let parent: u32 = match self.u32() {
            Some(v) => v,
            None => {
                return None;
            },
        };
        let child: u32 = match self.u32() {
            Some(v) => v,
            None => {
                return None;
            },
        };
        match self.u32() {
            Some(before) => Some(Op::Place { parent, child, before }),
            None => None,
        }
    }

    fn detach_op(&mut self, strings: &Vec<&'a str>) -> (r: Option<Op<'a>>)
        requires
            old(self).wf(),
        ensures
            stepped(
                *old(self),
                *final(self),
                r,
                get_detach_op(old(self).buf@, old(self).pos as int, texts(strings@)),
            ),
    {
        proof {
            reveal(get_detach_op);
        }
        match self.u32() {
            Some(id) => Some(Op::Detach { id }),
            None => None,
        }
    }

    fn remove_op(&mut self, strings: &Vec<&'a str>) -> (r: Option<Op<'a>>)
        requires
            old(self).wf(),
        ensures
            stepped(
                *old(self),
                *final(self),
                r,
                get_remove_op(old(self).buf@, old(self).pos as int, texts(strings@)),
            ),
    {
        proof {
            reveal(get_remove_op);
        }
        match self.u32() {
            Some(id) => Some(Op::Remove { id }),
            None => None,
        }
    }

    fn hidden_op(&mut self, strings: &Vec<&'a str>) -> (r: Option<Op<'a>>)
        requires
            old(self).wf(),
        ensures
            stepped(
                *old(self),
                *final(self),
                r,
                get_hidden_op(old(self).buf@, old(self).pos as int, texts(strings@)),
            ),
    {
        proof {
            reveal(get_hidden_op);
        }
        let id: u32 = match self.u32() {
            Some(v) => v,
            None => {
                return None;
            },
        };
        match self.boolean() {
            Some(hidden) => Some(Op::Hidden { id, hidden }),
            None => None,
        }
    }

    fn style_op(&mut self, strings: &Vec<&'a str>) -> (r: Option<Op<'a>>)
        requires
            old(self).wf(),
        ensures
            stepped(
                *old(self),
                *final(self),
                r,
                get_style_op(old(self).buf@, old(self).pos as int, texts(strings@)),
            ),
    {
        proof {
            reveal(get_style_op);
        }
        let wire_id: u32 = match self.u32() {
            Some(v) => v,
            None => {
                return None;
            },
        };
        match self.masked_style() {
            Some(style) => Some(Op::Style { wire_id, style: Box::new(style) }),
            None => None,
        }
    }

    fn view_paint_op(&mut self, strings: &Vec<&'a str>) -> (r: Option<Op<'a>>)
        requires
            old(self).wf(),
        ensures
            stepped(
                *old(self),
                *final(self),
                r,
                get_view_paint_op(old(self).buf@, old(self).pos as int, texts(strings@)),
            ),
    {
        proof {
            reveal(get_view_paint_op);
        }
        let id: u32 = match self.u32() {
            Some(v) => v,
            None => {
                return None;
            },
        };
        match self.u32() {
            Some(color) => Some(Op::ViewPaint { id, color }),
            None => None,
        }
    }

    fn paint_op(&mut self, strings: &Vec<&'a str>) -> (r: Option<Op<'a>>)
        requires
            old(self).wf(),
        ensures
            stepped(
                *old(self),
                *final(self),
                r,
                get_paint_op(old(self).buf@, old(self).pos as int, texts(strings@)),
            ),
    {
        proof {
            reveal(get_paint_op);
        }
        let id: u32 = match self.u32() {
            Some(v) => v,
            None => {
                return None;
            },
        };
        match self.paint() {
            Some(paint) => Some(Op::Paint { id, paint }),
            None => None,
        }
    }

    fn props_op(&mut self, strings: &Vec<&'a str>) -> (r: Option<Op<'a>>)
        requires
            old(self).wf(),
        ensures
            stepped(
                *old(self),
                *final(self),
                r,
                get_props_op(old(self).buf@, old(self).pos as int, texts(strings@)),
            ),
    {
        proof {
            reveal(get_props_op);
        }
        let id: u32 = match self.u32() {
            Some(v) => v,
            None => {
                return None;
            },
        };
        let listeners: u32 = match self.u32() {
            Some(v) => v,
            None => {
                return None;
            },
        };
        match self.boolean() {
            Some(focusable) => Some(Op::Props { id, listeners, focusable }),
            None => None,
        }
    }

    fn input_props_op(&mut self, strings: &Vec<&'a str>) -> (r: Option<Op<'a>>)
        requires
            old(self).wf(),
        ensures
            stepped(
                *old(self),
                *final(self),
                r,
                get_input_props_op(old(self).buf@, old(self).pos as int, texts(strings@)),
            ),
    {
        proof {
            reveal(get_input_props_op);
        }
        let id: u32 = match self.u32() {
            Some(v) => v,
            None => {
                return None;
            },
        };
        let font_size: Scalar = match self.scalar() {
            Some(v) => v,
            None => {
                return None;
            },
        };
        let color: u32 = match self.u32() {
            Some(v) => v,
            None => {
                return None;
            },
        };
        let placeholder: &'a str = match self.string(strings) {
            Some(v) => v,
            None => {
                return None;
            },
        };
        match self.boolean() {
            Some(multiline) => Some(
                Op::InputProps { id, font_size, color, placeholder, multiline },
            ),
            None => None,
        }
    }

    fn command_op(&mut self, strings: &Vec<&'a str>) -> (r: Option<Op<'a>>)
        requires
            old(self).wf(),
        ensures
            stepped(
                *old(self),
                *final(self),
                r,
                get_command_op(old(self).buf@, old(self).pos as int, texts(strings@)),
            ),
    {
        proof {
            reveal(get_command_op);
        }
        let id: u32 = match self.u32() {
            Some(v) => v,
            None => {
                return None;
            },
        };
        match self.cmd(strings) {
            Some(cmd) => Some(Op::Command { id, cmd }),
            None => None,
        }
    }

    fn custom_op(&mut self, strings: &Vec<&'a str>) -> (r: Option<Op<'a>>)
        requires
            old(self).wf(),
        ensures
            stepped(
                *old(self),
                *final(self),
                r,
                get_custom_op(old(self).buf@, old(self).pos as int, texts(strings@)),
            ),
    {
        proof {
            reveal(get_custom_op);
        }
        let id: u32 = match self.u32() {
            Some(v) => v,
            None => {
                return None;
            },
        };
        let tag: u32 = match self.u32() {
            Some(v) => v,
            None => {
                return None;
            },
        };
        let data: Payload = match self.payload() {
            Some(v) => v,
            None => {
                return None;
            },
        };
        match self.string(strings) {
            Some(text) => Some(Op::Custom { id, tag, data, text }),
            None => None,
        }
    }

    fn label_op(&mut self, strings: &Vec<&'a str>) -> (r: Option<Op<'a>>)
        requires
            old(self).wf(),
        ensures
            stepped(
                *old(self),
                *final(self),
                r,
                get_label_op(old(self).buf@, old(self).pos as int, texts(strings@)),
            ),
    {
        proof {
            reveal(get_label_op);
        }
        let id: u32 = match self.u32() {
            Some(v) => v,
            None => {
                return None;
            },
        };
        match self.string(strings) {
            Some(text) => Some(Op::Label { id, text }),
            None => None,
        }
    }

    fn body(&mut self, tag: u8, strings: &Vec<&'a str>) -> (r: Option<Op<'a>>)
        requires
            old(self).wf(),
        ensures
            stepped(
                *old(self),
                *final(self),
                r,
                get_body(tag, old(self).buf@, old(self).pos as int, texts(strings@)),
            ),
    {
        match tag {
            CREATE => self.create_op(strings),
            SET_TEXT => self.set_text_op(strings),
            TEXT_PROPS => self.text_props_op(strings),
            SET_STYLE => self.set_style_op(strings),
            PLACE => self.place_op(strings),
            DETACH => self.detach_op(strings),
            REMOVE => self.remove_op(strings),
            HIDDEN => self.hidden_op(strings),
            STYLE => self.style_op(strings),
            VIEW_PAINT => self.view_paint_op(strings),
            PAINT => self.paint_op(strings),
            PROPS => self.props_op(strings),
            INPUT_PROPS => self.input_props_op(strings),
            COMMAND => self.command_op(strings),
            CUSTOM => self.custom_op(strings),
            LABEL => self.label_op(strings),
            _ => None,
        }
    }

    fn op(&mut self, strings: &Vec<&'a str>) -> (r: Result<Op<'a>, WireError>)
        requires
            old(self).wf(),
        ensures
            final(self).wf(),
            final(self).buf == old(self).buf,
            match get_op(old(self).buf@, old(self).pos as int, texts(strings@)) {
                Ok((op, p)) => r matches Ok(x) && x@ == op && final(self).pos == p,
                Err(e) => r matches Err(x) && x == e,
            },
    {
        let tag: u8 = match self.u8() {
            Some(tag) => tag,
            None => {
                return Err(WireError::Truncated);
            },
        };
        if tag < CREATE || tag > LABEL {
            return Err(WireError::BadOp(tag));
        }
        match self.body(tag, strings) {
            Some(op) => Ok(op),
            None => Err(WireError::Truncated),
        }
    }

    /// Reads `count` strings.
    fn strings(&mut self, count: u32) -> (r: Result<Vec<&'a str>, WireError>)
        requires
            old(self).wf(),
        ensures
            final(self).wf(),
            final(self).buf == old(self).buf,
            match get_strings(old(self).buf@, old(self).pos as int, 0, count as int) {
                Ok((st, p)) => r matches Ok(x) && texts(x@) == st && final(self).pos == p,
                Err(e) => r matches Err(x) && x == e,
            },
    {
        let ghost b = self.buf@;
        let ghost goal = get_strings(b, self.pos as int, 0, count as int);
        let mut out: Vec<&'a str> = Vec::new();
        let mut i: u32 = 0;
        proof {
            if let Ok((rest, p)) = get_strings(b, self.pos as int, 0, count as int) {
                assert(texts(out@) + rest =~= rest);
            }
        }
        while i < count
            invariant
                i <= count,
                self.wf(),
                self.buf == old(self).buf,
                b == self.buf@,
                goal == get_strings(b, old(self).pos as int, 0, count as int),
                match get_strings(b, self.pos as int, i as int, count as int) {
                    Ok((rest, p)) => goal == Ok::<(Seq<Seq<char>>, int), WireError>(
                        (texts(out@) + rest, p),
                    ),
                    Err(e) => goal == Err::<(Seq<Seq<char>>, int), WireError>(e),
                },
            decreases count - i,
        {
            let ghost before = texts(out@);
            let len: u32 = match self.u32() {
                Some(len) => len,
                None => {
                    return Err(WireError::Truncated);
                },
            };
            if self.buf.len() - self.pos < len as usize {
                return Err(WireError::BadString(i as usize));
            }
            let end: usize = self.pos + len as usize;
            let bytes = slice_subrange(self.buf, self.pos, end);
            match text_of(bytes) {
                Some(s) => {
                    self.pos = end;
                    out.push(s);
                    proof {
                        assert(texts(out@) =~= before.push(s@));
                        if let Ok((rest, p)) = get_strings(b, end as int, i + 1, count as int) {
                            assert(texts(out@) + rest =~= before + (seq![s@] + rest));
                        }
                    }
                },
                None => {
                    return Err(WireError::BadUtf8);
                },
            }
            i = i + 1;
        }
        proof {
            assert(texts(out@) + Seq::<Seq<char>>::empty() =~= texts(out@));
        }
        Ok(out)
    }
}

/// What the ops of a transaction say.
spec fn said(ops: Seq<Op<'_>>) -> Seq<OpModel> {
    Seq::new(ops.len(), |i: int| ops[i]@)
}

/// Decodes a transaction buffer.
pub fn decode<'a>(buf: &'a [u8]) -> (r: Result<Txn<'a>, WireError>)
    ensures
        match get_txn(buf@) {
            Ok(txn) => r matches Ok(x) && x@ == txn,
            Err(e) => r matches Err(x) && x == e,
        },
{
    let mut rd: Reader<'a> = Reader { buf, pos: 0 };
    let magic: u32 = match rd.u32() {
        Some(v) => v,
        None => {
            return Err(WireError::Truncated);
        },
    };
    if magic != MAGIC {
        return Err(WireError::BadMagic);
    }
    let version: u16 = match rd.u16() {
        Some(v) => v,
        None => {
            return Err(WireError::Truncated);
        },
    };
    if version != VERSION {
        return Err(WireError::BadVersion(version));
    }
    if rd.u16().is_none() {
        return Err(WireError::Truncated);
    }
    decode_rest(rd)
}

fn decode_rest<'a>(start: Reader<'a>) -> (r: Result<Txn<'a>, WireError>)
    requires
        start.wf(),
    ensures
        match get_rest(start.buf@, start.pos as int) {
            Ok(txn) => r matches Ok(x) && x@ == txn,
            Err(e) => r matches Err(x) && x == e,
        },
{
    let mut rd: Reader<'a> = start;
    let seq: u64 = match rd.u64() {
        Some(v) => v,
        None => {
            return Err(WireError::Truncated);
        },
    };
    let count: u32 = match rd.u32() {
        Some(v) => v,
        None => {
            return Err(WireError::Truncated);
        },
    };
    let strings: Vec<&'a str> = match rd.strings(count) {
        Ok(v) => v,
        Err(e) => {
            return Err(e);
        },
    };
    match decode_ops(rd, &strings) {
        Ok(ops) => {
            let txn = Txn { seq, ops };
            proof {
                assert(txn@.ops =~= said(txn.ops@));
            }
            Ok(txn)
        },
        Err(e) => Err(e),
    }
}

fn decode_ops<'a>(start: Reader<'a>, strings: &Vec<&'a str>) -> (r: Result<Vec<Op<'a>>, WireError>)
    requires
        start.wf(),
    ensures
        match get_ops(start.buf@, start.pos as int, texts(strings@)) {
            Ok(ops) => r matches Ok(x) && said(x@) == ops,
            Err(e) => r matches Err(x) && x == e,
        },
{
    let mut rd: Reader<'a> = start;
    let ghost b = start.buf@;
    let ghost st = texts(strings@);
    let ghost goal = get_ops(b, start.pos as int, st);
    let mut out: Vec<Op<'a>> = Vec::new();
    proof {
        if let Ok(rest) = goal {
            assert(said(out@) + rest =~= rest);
        }
    }
    while rd.pos < rd.buf.len()
        invariant
            rd.wf(),
            rd.buf@ == b,
            st == texts(strings@),
            b == start.buf@,
            goal == get_ops(b, start.pos as int, st),
            match get_ops(b, rd.pos as int, st) {
                Ok(rest) => goal == Ok::<Seq<OpModel>, WireError>(said(out@) + rest),
                Err(e) => goal == Err::<Seq<OpModel>, WireError>(e),
            },
        decreases b.len() - rd.pos,
    {
        let ghost before = said(out@);
        proof {
            lemma_op_advances(b, rd.pos as int, st);
        }
        match rd.op(strings) {
            Ok(op) => {
                let ghost model = op@;
                out.push(op);
                proof {
                    assert(said(out@) =~= before.push(model));
                    if let Ok(rest) = get_ops(b, rd.pos as int, st) {
                        assert(said(out@) + rest =~= before + (seq![model] + rest));
                    }
                }
            },
            Err(e) => {
                return Err(e);
            },
        }
    }
    proof {
        assert(said(out@) + Seq::<OpModel>::empty() =~= said(out@));
    }
    Ok(out)
}

} // verus!
