//! Transaction encoder.

use super::bytes::{push_bool, push_bytes, push_u16, push_u32, push_u64, push_u8};
use super::fields::{put_style_fields, ALL};
use super::format::{
    arrived, faithful, get_txn, law_transaction_round_trip, lemma_put_ops_push, lemma_put_ops_table,
    lemma_slot, listed, put_op, put_ops, put_strings, put_txn, slot, storable, Command,
    CommandModel, OpModel, PaintParts, Payload, TxnModel, WireError, COMMAND, CREATE, CUSTOM,
    DETACH, HIDDEN, INPUT_PROPS, LABEL, MAGIC, PAINT, PLACE, PROPS, REMOVE, SET_STYLE, SET_TEXT,
    STYLE, TEXT_PROPS, VERSION, VIEW_PAINT,
};
use crate::scalar::Scalar;
use crate::style::Style;
use vstd::prelude::*;
use vstd::utf8::encode_utf8;

verus! {

/// "No node": appends, clears, or stands for the top level.
pub const NIL: u32 = 0xFFFF_FFFF;

/// Transaction encoder. Strings are interned per transaction; ops append to
/// a flat op buffer; `finish` puts header, strings and ops together.
pub struct Encoder {
    strings: Vec<String>,
    ops: Vec<u8>,
    log: Ghost<Seq<OpModel>>,
}

/// True where two strings hold the same characters.
pub(crate) fn same_str(a: &str, b: &str) -> (r: bool)
    ensures
        r == (a@ == b@),
{
    let x = a.as_bytes();
    let y = b.as_bytes();
    proof {
        vstd::utf8::encode_utf8_decode_utf8(a@);
        vstd::utf8::encode_utf8_decode_utf8(b@);
    }
    if x.len() != y.len() {
        return false;
    }
    let mut i: usize = 0;
    while i < x.len()
        invariant
            i <= x@.len(),
            x@.len() == y@.len(),
            x@ == encode_utf8(a@),
            y@ == encode_utf8(b@),
            forall|k: int| 0 <= k < i ==> x@[k] == y@[k],
        decreases x@.len() - i,
    {
        if x[i] != y[i] {
            return false;
        }
        i = i + 1;
    }
    proof {
        assert(x@ =~= y@);
    }
    true
}

impl Encoder {
    /// The ops written so far, in order.
    pub closed spec fn written(&self) -> Seq<OpModel> {
        self.log@
    }

    /// The strings interned so far, in order.
    pub closed spec fn table(&self) -> Seq<Seq<char>> {
        Seq::new(self.strings@.len(), |i: int| self.strings@[i]@)
    }

    /// The op bytes are those of the ops written; each of their texts is
    /// interned, and the format can hold the table.
    pub closed spec fn wf(&self) -> bool {
        &&& self.ops@ == put_ops(self.log@, self.table())
        &&& forall|i: int| 0 <= i < self.log@.len() ==> listed(#[trigger] self.log@[i], self.table())
        &&& storable(self.table())
    }

    /// True where the format has room for one more string, and for `text`.
    pub open spec fn takes(&self, text: Seq<char>) -> bool {
        self.table().len() < u32::MAX && encode_utf8(text).len() <= u32::MAX
    }

    pub fn new() -> (r: Encoder)
        ensures
            r.wf(),
            r.written() == Seq::<OpModel>::empty(),
            r.table() == Seq::<Seq<char>>::empty(),
    {
        let r = Encoder { strings: Vec::new(), ops: Vec::new(), log: Ghost(Seq::empty()) };
        proof {
            assert(r.table() =~= Seq::<Seq<char>>::empty());
        }
        r
    }

    /// Index of `s` in the string table, where it is added if absent.
    fn str_ref(&mut self, s: &str) -> (r: u32)
        requires
            old(self).wf(),
            old(self).takes(s@),
        ensures
            final(self).wf(),
            final(self).written() == old(self).written(),
            final(self).table() == (if old(self).table().contains(s@) {
                old(self).table()
            } else {
                old(self).table().push(s@)
            }),
            final(self).table().contains(s@),
            r == slot(final(self).table(), s@),
    {
        let ghost st = self.table();
        let mut i: usize = 0;
        while i < self.strings.len()
            invariant
                i <= self.strings@.len(),
                *self == *old(self),
                self.wf(),
                st == self.table(),
                st.len() < u32::MAX,
                forall|k: int| 0 <= k < i ==> st[k] != s@,
            decreases self.strings@.len() - i,
        {
            if same_str(self.strings[i].as_str(), s) {
                proof {
                    lemma_slot(st, s@);
                    assert(st[i as int] == s@);
                }
                return i as u32;
            }
            i = i + 1;
        }
        let r: u32 = self.strings.len() as u32;
        self.strings.push(s.to_owned());
        proof {
            assert(self.table() =~= st.push(s@));
            lemma_slot(st.push(s@), s@);
            lemma_slot(st, s@);
            assert(st.push(s@)[st.len() as int] == s@);
            lemma_put_ops_table(self.log@, st, s@);
            assert forall|k: int| 0 <= k < self.table().len() implies encode_utf8(
                #[trigger] self.table()[k],
            ).len() <= u32::MAX by {
                if k < st.len() {
                    assert(st[k] == self.table()[k]);
                }
            }
        }
        r
    }

    /// Notes that `op`, whose bytes were appended, is written.
    proof fn lemma_logged(before: Encoder, after: Encoder, op: OpModel)
        requires
            before.wf(),
            after.strings == before.strings,
            listed(op, before.table()),
            after.ops@ == before.ops@ + put_op(op, before.table()),
            after.log@ == before.log@.push(op),
        ensures
            after.wf(),
            after.table() == before.table(),
    {
        lemma_put_ops_push(before.log@, op, before.table());
        assert(after.table() =~= before.table());
        assert forall|i: int| 0 <= i < after.log@.len() implies listed(
            #[trigger] after.log@[i],
            after.table(),
        ) by {
            if i < before.log@.len() {
                assert(before.log@[i] == after.log@[i]);
            }
        }
    }

    pub fn create(&mut self, id: u32, kind: u8)
        requires
            old(self).wf(),
        ensures
            final(self).wf(),
            final(self).written() == old(self).written().push(OpModel::Create { id, kind }),
            final(self).table() == old(self).table(),
    {
        let ghost start = *self;
        let ghost op = OpModel::Create { id, kind };
        push_u8(&mut self.ops, CREATE);
        push_u32(&mut self.ops, id);
        push_u8(&mut self.ops, kind);
        self.log = Ghost(self.log@.push(op));
        proof {
            assert(self.ops@ =~= start.ops@ + put_op(op, start.table()));
            Encoder::lemma_logged(start, *self, op);
        }
    }

    pub fn set_text(&mut self, id: u32, text: &str)
        requires
            old(self).wf(),
            old(self).takes(text@),
        ensures
            final(self).wf(),
            final(self).written() == old(self).written().push(OpModel::SetText { id, text: text@ }),
            final(self).table() == interned(old(self).table(), text@),
    {
        let s: u32 = self.str_ref(text);
        let ghost start = *self;
        let ghost op = OpModel::SetText { id, text: text@ };
        push_u8(&mut self.ops, SET_TEXT);
        push_u32(&mut self.ops, id);
        push_u32(&mut self.ops, s);
        self.log = Ghost(self.log@.push(op));
        proof {
            assert(self.ops@ =~= start.ops@ + put_op(op, start.table()));
            Encoder::lemma_logged(start, *self, op);
        }
    }

    pub fn text_props(&mut self, id: u32, font_size: Scalar, color: u32)
        requires
            old(self).wf(),
        ensures
            final(self).wf(),
            final(self).written() == old(self).written().push(
                OpModel::TextProps { id, font_size, color },
            ),
            final(self).table() == old(self).table(),
    {
        let ghost start = *self;
        let ghost op = OpModel::TextProps { id, font_size, color };
        push_u8(&mut self.ops, TEXT_PROPS);
        push_u32(&mut self.ops, id);
        push_u32(&mut self.ops, font_size.0);
        push_u32(&mut self.ops, color);
        self.log = Ghost(self.log@.push(op));
        proof {
            assert(self.ops@ =~= start.ops@ + put_op(op, start.table()));
            Encoder::lemma_logged(start, *self, op);
        }
    }

    pub fn set_style(&mut self, id: u32, wire_style: u32)
        requires
            old(self).wf(),
        ensures
            final(self).wf(),
            final(self).written() == old(self).written().push(OpModel::SetStyle { id, wire_style }),
            final(self).table() == old(self).table(),
    {
        let ghost start = *self;
        let ghost op = OpModel::SetStyle { id, wire_style };
        push_u8(&mut self.ops, SET_STYLE);
        push_u32(&mut self.ops, id);
        push_u32(&mut self.ops, wire_style);
        self.log = Ghost(self.log@.push(op));
        proof {
            assert(self.ops@ =~= start.ops@ + put_op(op, start.table()));
            Encoder::lemma_logged(start, *self, op);
        }
    }

    pub fn clear_style(&mut self, id: u32)
        requires
            old(self).wf(),
        ensures
            final(self).wf(),
            final(self).written() == old(self).written().push(
                OpModel::SetStyle { id, wire_style: NIL },
            ),
            final(self).table() == old(self).table(),
    {
        self.set_style(id, NIL);
    }

    /// `before` of all ones appends; `parent` of all ones is the top level.
    pub fn place(&mut self, parent: u32, child: u32, before: u32)
        requires
            old(self).wf(),
        ensures
            final(self).wf(),
            final(self).written() == old(self).written().push(
                OpModel::Place { parent, child, before },
            ),
            final(self).table() == old(self).table(),
    {
        let ghost start = *self;
        let ghost op = OpModel::Place { parent, child, before };
        push_u8(&mut self.ops, PLACE);
        push_u32(&mut self.ops, parent);
        push_u32(&mut self.ops, child);
        push_u32(&mut self.ops, before);
        self.log = Ghost(self.log@.push(op));
        proof {
            assert(self.ops@ =~= start.ops@ + put_op(op, start.table()));
            Encoder::lemma_logged(start, *self, op);
        }
    }

    pub fn detach(&mut self, id: u32)
        requires
            old(self).wf(),
        ensures
            final(self).wf(),
            final(self).written() == old(self).written().push(OpModel::Detach { id }),
            final(self).table() == old(self).table(),
    {
        let ghost start = *self;
        let ghost op = OpModel::Detach { id };
        push_u8(&mut self.ops, DETACH);
        push_u32(&mut self.ops, id);
        self.log = Ghost(self.log@.push(op));
        proof {
            assert(self.ops@ =~= start.ops@ + put_op(op, start.table()));
            Encoder::lemma_logged(start, *self, op);
        }
    }

    pub fn remove(&mut self, id: u32)
        requires
            old(self).wf(),
        ensures
            final(self).wf(),
            final(self).written() == old(self).written().push(OpModel::Remove { id }),
            final(self).table() == old(self).table(),
    {
        let ghost start = *self;
        let ghost op = OpModel::Remove { id };
        push_u8(&mut self.ops, REMOVE);
        push_u32(&mut self.ops, id);
        self.log = Ghost(self.log@.push(op));
        proof {
            assert(self.ops@ =~= start.ops@ + put_op(op, start.table()));
            Encoder::lemma_logged(start, *self, op);
        }
    }

    pub fn hidden(&mut self, id: u32, hidden: bool)
        requires
            old(self).wf(),
        ensures
            final(self).wf(),
            final(self).written() == old(self).written().push(OpModel::Hidden { id, hidden }),
            final(self).table() == old(self).table(),
    {
        let ghost start = *self;
        let ghost op = OpModel::Hidden { id, hidden };
        push_u8(&mut self.ops, HIDDEN);
        push_u32(&mut self.ops, id);
        push_bool(&mut self.ops, hidden);
        self.log = Ghost(self.log@.push(op));
        proof {
            assert(self.ops@ =~= start.ops@ + put_op(op, start.table()));
            Encoder::lemma_logged(start, *self, op);
        }
    }

    /// Defines style `wire_id`, as a full record.
    pub fn style(&mut self, wire_id: u32, s: &Style)
        requires
            old(self).wf(),
        ensures
            final(self).wf(),
            final(self).written() == old(self).written().push(
                OpModel::Style { wire_id, style: *s },
            ),
            final(self).table() == old(self).table(),
    {
        let ghost start = *self;
        let ghost op = OpModel::Style { wire_id, style: *s };
        push_u8(&mut self.ops, STYLE);
        push_u32(&mut self.ops, wire_id);
        push_u64(&mut self.ops, ALL);
        put_style_fields(&mut self.ops, s, ALL);
        self.log = Ghost(self.log@.push(op));
        proof {
            assert(self.ops@ =~= start.ops@ + put_op(op, start.table()));
            Encoder::lemma_logged(start, *self, op);
        }
    }

    /// Sets a node's background color (0xRRGGBBAA).
    pub fn view_paint(&mut self, id: u32, color: u32)
        requires
            old(self).wf(),
        ensures
            final(self).wf(),
            final(self).written() == old(self).written().push(OpModel::ViewPaint { id, color }),
            final(self).table() == old(self).table(),
    {
        let ghost start = *self;
        let ghost op = OpModel::ViewPaint { id, color };
        push_u8(&mut self.ops, VIEW_PAINT);
        push_u32(&mut self.ops, id);
        push_u32(&mut self.ops, color);
        self.log = Ghost(self.log@.push(op));
        proof {
            assert(self.ops@ =~= start.ops@ + put_op(op, start.table()));
            Encoder::lemma_logged(start, *self, op);
        }
    }

    /// Sets the given parts of a node's paint.
    pub fn paint(
        &mut self,
        id: u32,
        fill: Option<u32>,
        radius: Option<Scalar>,
        border: Option<(u32, Scalar)>,
    )
        requires
            old(self).wf(),
        ensures
            final(self).wf(),
            final(self).written() == old(self).written().push(
                OpModel::Paint { id, paint: PaintParts { fill, radius, border } },
            ),
            final(self).table() == old(self).table(),
    {
        let ghost start = *self;
        let ghost op = OpModel::Paint { id, paint: PaintParts { fill, radius, border } };
        push_u8(&mut self.ops, PAINT);
        push_u32(&mut self.ops, id);
        let mut mask: u8 = 0;
        if fill.is_some() {
            mask = mask + 1;
        }
        if radius.is_some() {
            mask = mask + 2;
        }
        if border.is_some() {
            mask = mask + 4;
        }
        push_u8(&mut self.ops, mask);
        if let Some(color) = fill {
            push_u32(&mut self.ops, color);
        }
        if let Some(r) = radius {
            push_u32(&mut self.ops, r.0);
        }
        if let Some(b) = border {
            push_u32(&mut self.ops, b.0);
            push_u32(&mut self.ops, b.1.0);
        }
        self.log = Ghost(self.log@.push(op));
        proof {
            assert(self.ops@ =~= start.ops@ + put_op(op, start.table()));
            Encoder::lemma_logged(start, *self, op);
        }
    }

    pub fn props(&mut self, id: u32, listeners: u32, focusable: bool)
        requires
            old(self).wf(),
        ensures
            final(self).wf(),
            final(self).written() == old(self).written().push(
                OpModel::Props { id, listeners, focusable },
            ),
            final(self).table() == old(self).table(),
    {
        let ghost start = *self;
        let ghost op = OpModel::Props { id, listeners, focusable };
        push_u8(&mut self.ops, PROPS);
        push_u32(&mut self.ops, id);
        push_u32(&mut self.ops, listeners);
        push_bool(&mut self.ops, focusable);
        self.log = Ghost(self.log@.push(op));
        proof {
            assert(self.ops@ =~= start.ops@ + put_op(op, start.table()));
            Encoder::lemma_logged(start, *self, op);
        }
    }

    pub fn input_props(
        &mut self,
        id: u32,
        font_size: Scalar,
        color: u32,
        placeholder: &str,
        multiline: bool,
    )
        requires
            old(self).wf(),
            old(self).takes(placeholder@),
        ensures
            final(self).wf(),
            final(self).written() == old(self).written().push(
                OpModel::InputProps { id, font_size, color, placeholder: placeholder@, multiline },
            ),
            final(self).table() == interned(old(self).table(), placeholder@),
    {
        let s: u32 = self.str_ref(placeholder);
        let ghost start = *self;
        let ghost op = OpModel::InputProps {
            id,
            font_size,
            color,
            placeholder: placeholder@,
            multiline,
        };
        push_u8(&mut self.ops, INPUT_PROPS);
        push_u32(&mut self.ops, id);
        push_u32(&mut self.ops, font_size.0);
        push_u32(&mut self.ops, color);
        push_u32(&mut self.ops, s);
        push_bool(&mut self.ops, multiline);
        self.log = Ghost(self.log@.push(op));
        proof {
            assert(self.ops@ =~= start.ops@ + put_op(op, start.table()));
            Encoder::lemma_logged(start, *self, op);
        }
    }

    pub fn command(&mut self, id: u32, cmd: Command<'_>)
        requires
            old(self).wf(),
            cmd@ matches CommandModel::SetInputText(text) ==> old(self).takes(text),
        ensures
            final(self).wf(),
            final(self).written() == old(self).written().push(OpModel::Command { id, cmd: cmd@ }),
            final(self).table() == (match cmd@ {
                CommandModel::SetInputText(text) => interned(old(self).table(), text),
                _ => old(self).table(),
            }),
    {
        let s: u32 = match cmd {
            Command::SetInputText(text) => self.str_ref(text),
            _ => 0,
        };
        let ghost start = *self;
        let ghost op = OpModel::Command { id, cmd: cmd@ };
        push_u8(&mut self.ops, COMMAND);
        push_u32(&mut self.ops, id);
        match cmd {
            Command::Focus => {
                push_u8(&mut self.ops, 0);
            },
            Command::Blur => {
                push_u8(&mut self.ops, 1);
            },
            Command::SetInputText(_) => {
                push_u8(&mut self.ops, 2);
                push_u32(&mut self.ops, s);
            },
            Command::ScrollTo(x, y) => {
                push_u8(&mut self.ops, 3);
                push_u32(&mut self.ops, x.0);
                push_u32(&mut self.ops, y.0);
            },
        }
        self.log = Ghost(self.log@.push(op));
        proof {
            assert(self.ops@ =~= start.ops@ + put_op(op, start.table()));
            Encoder::lemma_logged(start, *self, op);
        }
    }

    pub fn custom(&mut self, id: u32, tag: u32, data: Payload, text: &str)
        requires
            old(self).wf(),
            old(self).takes(text@),
        ensures
            final(self).wf(),
            final(self).written() == old(self).written().push(
                OpModel::Custom { id, tag, data, text: text@ },
            ),
            final(self).table() == interned(old(self).table(), text@),
    {
        let s: u32 = self.str_ref(text);
        let ghost start = *self;
        let ghost op = OpModel::Custom { id, tag, data, text: text@ };
        push_u8(&mut self.ops, CUSTOM);
        push_u32(&mut self.ops, id);
        push_u32(&mut self.ops, tag);
        push_u32(&mut self.ops, data.0.0);
        push_u32(&mut self.ops, data.1.0);
        push_u32(&mut self.ops, data.2.0);
        push_u32(&mut self.ops, data.3.0);
        push_u32(&mut self.ops, s);
        self.log = Ghost(self.log@.push(op));
        proof {
            assert(self.ops@ =~= start.ops@ + put_op(op, start.table()));
            Encoder::lemma_logged(start, *self, op);
        }
    }

    /// Names a node for assistive technology; an empty text clears the name.
    pub fn label(&mut self, id: u32, text: &str)
        requires
            old(self).wf(),
            old(self).takes(text@),
        ensures
            final(self).wf(),
            final(self).written() == old(self).written().push(OpModel::Label { id, text: text@ }),
            final(self).table() == interned(old(self).table(), text@),
    {
        let s: u32 = self.str_ref(text);
        let ghost start = *self;
        let ghost op = OpModel::Label { id, text: text@ };
        push_u8(&mut self.ops, LABEL);
        push_u32(&mut self.ops, id);
        push_u32(&mut self.ops, s);
        self.log = Ghost(self.log@.push(op));
        proof {
            assert(self.ops@ =~= start.ops@ + put_op(op, start.table()));
            Encoder::lemma_logged(start, *self, op);
        }
    }

    /// The bytes of the transaction. They decode to `seq` and the ops
    /// written; of a style whose aspect ratio is a NaN the ratio is missing.
    pub fn finish(&self, seq: u64) -> (out: Vec<u8>)
        requires
            self.wf(),
        ensures
            out@ == put_txn(seq, self.table(), self.written()),
            get_txn(out@) == Ok::<TxnModel, WireError>(
                TxnModel { seq, ops: arrived(self.written()) },
            ),
            (forall|i: int| 0 <= i < self.written().len() ==> faithful(#[trigger] self.written()[i]))
                ==> arrived(self.written()) == self.written(),
    {
        let ghost st = self.table();
        let mut out: Vec<u8> = Vec::new();
        push_u32(&mut out, MAGIC);
        push_u16(&mut out, VERSION);
        push_u16(&mut out, 0);
        push_u64(&mut out, seq);
        push_u32(&mut out, self.strings.len() as u32);
        let ghost head = out@;
        let mut i: usize = 0;
        proof {
            assert(st.skip(0) =~= st);
        }
        while i < self.strings.len()
            invariant
                i <= self.strings@.len(),
                st == self.table(),
                storable(st),
                out@ + put_strings(st.skip(i as int)) == head + put_strings(st),
            decreases self.strings@.len() - i,
        {
            let s = self.strings[i].as_str();
            let bytes = s.as_bytes();
            let ghost before = out@;
            proof {
                assert(st[i as int] == s@);
                assert(st.skip(i as int).drop_first() =~= st.skip(i + 1));
                assert(st.skip(i as int)[0] == s@);
            }
            push_u32(&mut out, bytes.len() as u32);
            push_bytes(&mut out, bytes);
            proof {
                assert(out@ + put_strings(st.skip(i + 1)) =~= before + put_strings(
                    st.skip(i as int),
                ));
            }
            i = i + 1;
        }
        proof {
            assert(st.skip(i as int) =~= Seq::empty());
            assert(out@ =~= head + put_strings(st));
        }
        push_bytes(&mut out, self.ops.as_slice());
        proof {
            assert(out@ =~= put_txn(seq, st, self.log@));
            law_transaction_round_trip(seq, st, self.log@);
        }
        out
    }
}

/// A string table with `text` in it, added at the end where it is absent.
pub open spec fn interned(st: Seq<Seq<char>>, text: Seq<char>) -> Seq<Seq<char>> {
    if st.contains(text) {
        st
    } else {
        st.push(text)
    }
}

impl Default for Encoder {
    fn default() -> (r: Encoder)
        ensures
            r.wf(),
            r.written() == Seq::<OpModel>::empty(),
    {
        Encoder::new()
    }
}

} // verus!
