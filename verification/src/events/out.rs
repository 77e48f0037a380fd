//! Events that go out to listeners.

use super::{mask, out_kind};
use crate::scalar::Scalar;
use crate::wire::bytes::{
    get_u32, holds, lemma_holds_at, lemma_holds_split, lemma_u32, lemma_u32_first, push_bytes, push_u32,
    push_u8, put_u32,
};
use vstd::prelude::*;
use vstd::utf8::encode_utf8;

verus! {

/// One outgoing event: which node, what, pointer position (logical), two
/// numbers whose meaning depends on the kind (offset in the node, wheel
/// delta, scroll offset), a key code, and a text.
#[derive(Clone, Debug)]
pub struct UiEvent {
    pub kind: u8,
    pub node: u32,
    pub x: Scalar,
    pub y: Scalar,
    pub a: Scalar,
    pub b: Scalar,
    pub key: u32,
    pub text: String,
}

/// What an outgoing event says.
#[verifier::ext_equal]
pub struct UiEventModel {
    pub kind: u8,
    pub node: u32,
    pub x: Scalar,
    pub y: Scalar,
    pub a: Scalar,
    pub b: Scalar,
    pub key: u32,
    pub text: Seq<char>,
}

impl View for UiEvent {
    type V = UiEventModel;

    open spec fn view(&self) -> UiEventModel {
        UiEventModel {
            kind: self.kind,
            node: self.node,
            x: self.x,
            y: self.y,
            a: self.a,
            b: self.b,
            key: self.key,
            text: self.text@,
        }
    }
}

impl UiEventModel {
    /// An event with nothing but its kind and its node.
    pub open spec fn bare(kind: u8, node: u32) -> UiEventModel {
        UiEventModel {
            kind,
            node,
            x: Scalar(0),
            y: Scalar(0),
            a: Scalar(0),
            b: Scalar(0),
            key: 0,
            text: Seq::empty(),
        }
    }
}

impl UiEvent {
    pub fn new(kind: u8, node: u32) -> (r: UiEvent)
        ensures
            r@ == UiEventModel::bare(kind, node),
    {
        UiEvent {
            kind,
            node,
            x: Scalar(0),
            y: Scalar(0),
            a: Scalar(0),
            b: Scalar(0),
            key: 0,
            text: String::new(),
        }
    }

    /// The same event, for another node.
    pub fn sent_to(&self, node: u32) -> (r: UiEvent)
        ensures
            r@ == (UiEventModel { node, ..self@ }),
    {
        UiEvent {
            kind: self.kind,
            node,
            x: self.x,
            y: self.y,
            a: self.a,
            b: self.b,
            key: self.key,
            text: self.text.clone(),
        }
    }
}

/// The listener bit of an event kind; none for a kind that is not one.
pub open spec fn mask_of(kind: u8) -> u32 {
    if kind == out_kind::POINTER_MOVE {
        mask::POINTER_MOVE
    } else if kind == out_kind::POINTER_DOWN {
        mask::POINTER_DOWN
    } else if kind == out_kind::POINTER_UP {
        mask::POINTER_UP
    } else if kind == out_kind::POINTER_ENTER || kind == out_kind::POINTER_LEAVE {
        mask::POINTER_ENTER_LEAVE
    } else if kind == out_kind::WHEEL {
        mask::WHEEL
    } else if kind == out_kind::KEY_DOWN || kind == out_kind::KEY_UP {
        mask::KEY
    } else if kind == out_kind::FOCUS || kind == out_kind::BLUR {
        mask::FOCUS
    } else if kind == out_kind::CHANGE || kind == out_kind::SUBMIT {
        mask::INPUT
    } else if kind == out_kind::SCROLL {
        mask::SCROLL
    } else {
        0
    }
}

/// Maps an outgoing event kind to its listener mask bit.
pub fn mask_for(kind: u8) -> (r: u32)
    ensures
        r == mask_of(kind),
{
    match kind {
        out_kind::POINTER_MOVE => mask::POINTER_MOVE,
        out_kind::POINTER_DOWN => mask::POINTER_DOWN,
        out_kind::POINTER_UP => mask::POINTER_UP,
        out_kind::POINTER_ENTER | out_kind::POINTER_LEAVE => mask::POINTER_ENTER_LEAVE,
        out_kind::WHEEL => mask::WHEEL,
        out_kind::KEY_DOWN | out_kind::KEY_UP => mask::KEY,
        out_kind::FOCUS | out_kind::BLUR => mask::FOCUS,
        out_kind::CHANGE | out_kind::SUBMIT => mask::INPUT,
        out_kind::SCROLL => mask::SCROLL,
        _ => 0,
    }
}

// -------------------------------------------------------------------- frames

/// The low 32 bits of a length.
pub open spec fn length_word(n: nat) -> u32 {
    (n % 0x1_0000_0000) as u32
}

/// One record: kind, three bytes of padding, node, the four numbers, key
/// code, text length and text.
pub open spec fn put_event(e: UiEventModel) -> Seq<u8> {
    seq![e.kind, 0, 0, 0] + (put_u32(e.node) + (put_u32(e.x.0) + (put_u32(e.y.0) + (put_u32(e.a.0)
        + (put_u32(e.b.0) + (put_u32(e.key) + (put_u32(length_word(encode_utf8(e.text).len()))
        + encode_utf8(e.text))))))))
}

pub open spec fn put_records(events: Seq<UiEventModel>) -> Seq<u8>
    decreases events.len(),
{
    if events.len() == 0 {
        Seq::empty()
    } else {
        put_event(events[0]) + put_records(events.drop_first())
    }
}

/// A frame: the number of records, then the records.
pub open spec fn put_events(events: Seq<UiEventModel>) -> Seq<u8> {
    put_u32(length_word(events.len())) + put_records(events)
}

/// What a list of events says.
pub open spec fn event_models(events: Seq<UiEvent>) -> Seq<UiEventModel> {
    Seq::new(events.len(), |i: int| events[i]@)
}

fn low_word(n: usize) -> (r: u32)
    ensures
        r == length_word(n as nat),
{
    (n as u64 % 0x1_0000_0000) as u32
}

fn push_event(out: &mut Vec<u8>, e: &UiEvent)
    ensures
        final(out)@ == old(out)@ + put_event(e@),
{
    let ghost start = out@;
    push_u8(out, e.kind);
    push_u8(out, 0);
    push_u8(out, 0);
    push_u8(out, 0);
    push_u32(out, e.node);
    push_u32(out, e.x.0);
    push_u32(out, e.y.0);
    push_u32(out, e.a.0);
    push_u32(out, e.b.0);
    push_u32(out, e.key);
    let text = e.text.as_str();
    let bytes = text.as_bytes();
    push_u32(out, low_word(bytes.len()));
    push_bytes(out, bytes);
    proof {
        assert(out@ =~= start + put_event(e@));
    }
}

/// Serializes events into one frame.
pub fn encode_events(events: &[UiEvent]) -> (out: Vec<u8>)
    ensures
        out@ == put_events(event_models(events@)),
{
    let ghost all = event_models(events@);
    let mut out: Vec<u8> = Vec::new();
    push_u32(&mut out, low_word(events.len()));
    let ghost head = out@;
    let mut i: usize = 0;
    proof {
        assert(all.skip(0) =~= all);
    }
    while i < events.len()
        invariant
            i <= events@.len(),
            all == event_models(events@),
            out@ + put_records(all.skip(i as int)) == head + put_records(all),
        decreases events@.len() - i,
    {
        let ghost before = out@;
        push_event(&mut out, &events[i]);
        proof {
            assert(all.skip(i as int)[0] == events@[i as int]@);
            assert(all.skip(i as int).drop_first() =~= all.skip(i + 1));
            assert(out@ + put_records(all.skip(i + 1)) =~= before + put_records(
                all.skip(i as int),
            ));
        }
        i = i + 1;
    }
    proof {
        assert(all.skip(i as int) =~= Seq::empty());
        assert(out@ =~= head + put_records(all));
    }
    out
}

/// True of events that a frame can carry whole: their number and the length
/// of each text fit their fields.
pub open spec fn framed(events: Seq<UiEventModel>) -> bool {
    &&& events.len() < 0x1_0000_0000
    &&& forall|i: int|
        0 <= i < events.len() ==> encode_utf8((#[trigger] events[i]).text).len() < 0x1_0000_0000
}

/// The bytes of a record tell its event, and where the next record starts.
proof fn lemma_event_prefix(a: UiEventModel, b: UiEventModel, s: Seq<u8>, t: Seq<u8>)
    requires
        encode_utf8(a.text).len() < 0x1_0000_0000,
        encode_utf8(b.text).len() < 0x1_0000_0000,
        put_event(a) + s == put_event(b) + t,
    ensures
        a == b,
        s == t,
{
    let w = put_event(a) + s;
    let v = put_event(b) + t;
    lemma_event_at(a, w, s);
    lemma_event_at(b, v, t);
    assert(a.text == b.text) by {
        vstd::utf8::encode_utf8_decode_utf8(a.text);
        vstd::utf8::encode_utf8_decode_utf8(b.text);
    }
    assert(s =~= t);
}

/// Where the fields of a record lie.
proof fn lemma_event_at(e: UiEventModel, w: Seq<u8>, rest: Seq<u8>)
    requires
        encode_utf8(e.text).len() < 0x1_0000_0000,
        w == put_event(e) + rest,
    ensures
        w.len() == 32 + encode_utf8(e.text).len() + rest.len(),
        w[0] == e.kind && w[1] == 0 && w[2] == 0 && w[3] == 0,
        get_u32(w, 4) == Some((e.node, 8int)),
        get_u32(w, 8) == Some((e.x.0, 12int)),
        get_u32(w, 12) == Some((e.y.0, 16int)),
        get_u32(w, 16) == Some((e.a.0, 20int)),
        get_u32(w, 20) == Some((e.b.0, 24int)),
        get_u32(w, 24) == Some((e.key, 28int)),
        get_u32(w, 28) == Some((encode_utf8(e.text).len() as u32, 32int)),
        w.subrange(32, 32int + encode_utf8(e.text).len()) == encode_utf8(e.text),
        w.skip(32int + encode_utf8(e.text).len()) == rest,
{
    let text = encode_utf8(e.text);
    let r7 = put_u32(length_word(text.len())) + text;
    let r6 = put_u32(e.key) + r7;
    let r5 = put_u32(e.b.0) + r6;
    let r4 = put_u32(e.a.0) + r5;
    let r3 = put_u32(e.y.0) + r4;
    let r2 = put_u32(e.x.0) + r3;
    let r1 = put_u32(e.node) + r2;
    let head = seq![e.kind, 0u8, 0u8, 0u8];
    let record = head + r1;
    assert(put_event(e) == record);
    assert(w.subrange(0, record.len() as int) =~= record);
    lemma_holds_split(w, 0, head, r1);
    lemma_holds_at(w, 0, head, 0);
    lemma_holds_at(w, 0, head, 1);
    lemma_holds_at(w, 0, head, 2);
    lemma_holds_at(w, 0, head, 3);
    lemma_u32_first(w, 4, e.node, r2);
    lemma_u32_first(w, 8, e.x.0, r3);
    lemma_u32_first(w, 12, e.y.0, r4);
    lemma_u32_first(w, 16, e.a.0, r5);
    lemma_u32_first(w, 20, e.b.0, r6);
    lemma_u32_first(w, 24, e.key, r7);
    lemma_u32_first(w, 28, length_word(text.len()), text);
    assert(record.len() == 32 + text.len());
    assert(w.skip(32int + text.len()) =~= rest);
}

proof fn lemma_records_tell(a: Seq<UiEventModel>, b: Seq<UiEventModel>)
    requires
        framed(a),
        framed(b),
        a.len() == b.len(),
        put_records(a) == put_records(b),
    ensures
        a == b,
    decreases a.len(),
{
    if a.len() > 0 {
        lemma_event_prefix(
            a[0],
            b[0],
            put_records(a.drop_first()),
            put_records(b.drop_first()),
        );
        assert forall|i: int| 0 <= i < a.drop_first().len() implies encode_utf8(
            (#[trigger] a.drop_first()[i]).text,
        ).len() < 0x1_0000_0000 by {
            assert(a.drop_first()[i] == a[i + 1]);
        }
        assert forall|i: int| 0 <= i < b.drop_first().len() implies encode_utf8(
            (#[trigger] b.drop_first()[i]).text,
        ).len() < 0x1_0000_0000 by {
            assert(b.drop_first()[i] == b[i + 1]);
        }
        lemma_records_tell(a.drop_first(), b.drop_first());
        assert(a =~= seq![a[0]] + a.drop_first());
        assert(b =~= seq![b[0]] + b.drop_first());
    } else {
        assert(a =~= b);
    }
}

/// A frame tells its events: two lists with the same frame are the same.
pub proof fn law_frame_tells_events(a: Seq<UiEventModel>, b: Seq<UiEventModel>)
    requires
        framed(a),
        framed(b),
        put_events(a) == put_events(b),
    ensures
        a == b,
{
    let x = put_events(a);
    let na = put_u32(length_word(a.len()));
    let nb = put_u32(length_word(b.len()));
    assert(x.subrange(0, x.len() as int) =~= x);
    lemma_holds_split(x, 0, na, put_records(a));
    lemma_holds_split(x, 0, nb, put_records(b));
    lemma_u32(x, 0, length_word(a.len()));
    lemma_u32(x, 0, length_word(b.len()));
    assert(put_records(a) =~= x.skip(4));
    assert(put_records(b) =~= x.skip(4));
    lemma_records_tell(a, b);
}

/// A record lies in a frame with its kind first, then three bytes of padding,
/// then in four bytes each its node, position, the two numbers, the key and
/// the length of its text, then the text.
pub proof fn law_record_layout(e: UiEventModel)
    requires
        encode_utf8(e.text).len() < 0x1_0000_0000,
    ensures
        ({
            let w = put_event(e);
            let n = encode_utf8(e.text).len();
            &&& w.len() == 32 + n
            &&& w[0] == e.kind && w[1] == 0 && w[2] == 0 && w[3] == 0
            &&& get_u32(w, 4) == Some((e.node, 8int))
            &&& get_u32(w, 8) == Some((e.x.0, 12int))
            &&& get_u32(w, 12) == Some((e.y.0, 16int))
            &&& get_u32(w, 16) == Some((e.a.0, 20int))
            &&& get_u32(w, 20) == Some((e.b.0, 24int))
            &&& get_u32(w, 24) == Some((e.key, 28int))
            &&& get_u32(w, 28) == Some((n as u32, 32int))
            &&& w.skip(32) == encode_utf8(e.text)
        }),
{
    let w = put_event(e);
    lemma_joints(w, Seq::empty());
    lemma_event_at(e, w, Seq::empty());
    lemma_tail(w, 32);
}

proof fn lemma_joints(a: Seq<u8>, b: Seq<u8>)
    ensures
        a + Seq::<u8>::empty() == a,
        holds(a, 0, a),
        (a + b).skip(a.len() as int) == b,
{
    assert(a + Seq::<u8>::empty() =~= a);
    assert(a.subrange(0, a.len() as int) =~= a);
    assert((a + b).skip(a.len() as int) =~= b);
}

proof fn lemma_tail(w: Seq<u8>, n: int)
    requires
        0 <= n <= w.len(),
    ensures
        w.skip(n) == w.subrange(n, w.len() as int),
{
    assert(w.skip(n) =~= w.subrange(n, w.len() as int));
}

/// A frame is the number of its records, then the records.
pub proof fn law_frame_layout(a: Seq<UiEventModel>)
    requires
        a.len() < 0x1_0000_0000,
    ensures
        get_u32(put_events(a), 0) == Some((a.len() as u32, 4int)),
        put_events(a).skip(4) == put_records(a),
{
    lemma_counted(a.len() as u32, put_records(a));
}

proof fn lemma_counted(n: u32, rest: Seq<u8>)
    ensures
        get_u32(put_u32(n) + rest, 0) == Some((n, 4int)),
        (put_u32(n) + rest).skip(4) == rest,
{
    let w = put_u32(n) + rest;
    lemma_joints(w, rest);
    lemma_joints(put_u32(n), rest);
    lemma_u32_first(w, 0, n, rest);
}

/// Records follow in the order of the events, with nothing between or behind
/// them.
pub proof fn law_records_follow(a: Seq<UiEventModel>, b: Seq<UiEventModel>, e: UiEventModel)
    ensures
        put_records(Seq::empty()) == Seq::<u8>::empty(),
        put_records(a.push(e)) == put_records(a) + put_event(e),
        put_records(a + b) == put_records(a) + put_records(b),
{
    lemma_records_join(a, b);
    let one = Seq::<UiEventModel>::empty().push(e);
    lemma_one_record(one);
    lemma_records_join(a, one);
    assert(a.push(e) =~= a + one);
}

proof fn lemma_one_record(one: Seq<UiEventModel>)
    requires
        one.len() == 1,
    ensures
        put_records(one) == put_event(one[0]),
{
    let rest = one.drop_first();
    assert(rest.len() == 0);
    assert(put_records(rest) == Seq::<u8>::empty());
    lemma_joints(put_event(one[0]), Seq::empty());
}

proof fn lemma_regroup(a: Seq<u8>, b: Seq<u8>, c: Seq<u8>)
    ensures
        a + (b + c) == (a + b) + c,
{
    assert(a + (b + c) =~= (a + b) + c);
}

proof fn lemma_records_join(a: Seq<UiEventModel>, b: Seq<UiEventModel>)
    ensures
        put_records(a + b) == put_records(a) + put_records(b),
    decreases a.len(),
{
    if a.len() == 0 {
        assert(a + b =~= b);
        assert(Seq::<u8>::empty() + put_records(b) =~= put_records(b));
    } else {
        let rest = a.drop_first();
        lemma_records_join(rest, b);
        assert((a + b).drop_first() =~= rest + b);
        lemma_regroup(put_event(a[0]), put_records(rest), put_records(b));
    }
}

/// No other number is the kind of an event that anybody listens for.
pub proof fn law_other_kinds_have_no_mask(kind: u8)
    ensures
        kind == 0 || kind > 13 ==> mask_of(kind) == 0,
        1 <= kind <= 13 ==> mask_of(kind) != 0,
{
}

} // verus!
