//! Where the parts of a transaction lie, byte for byte, and which buffers are
//! turned down.

use super::bytes::{
    get_scalar, get_u16, get_u32, get_u64, holds, lemma_holds_at, lemma_holds_split,
    lemma_u16_first, lemma_u32_first, lemma_u64_first, put_bool, put_u16, put_u32, put_u64,
};
use super::fields::{
    content_of, content_tag, direction_of, direction_tag, display_of, display_tag, get_dim,
    get_field, get_fields, get_lp, get_lpa, items_of, items_tag, overflow_of, overflow_tag,
    place_of, place_tag, put_dim, put_field, put_fields, put_lp, put_lp_pair, put_lp_sides, put_lpa,
    put_lpa_pair, put_lpa_sides, put_dim_pair, ratio_bits, ratio_of, selects, wrap_of, wrap_tag,
};
use super::format::{
    get_cmd, get_op, get_ops, get_paint, get_rest, get_str, get_strings, get_style, get_txn,
    lemma_slot, put_border, put_cmd, put_fill, put_op, put_ops, put_paint, put_payload, put_radius,
    put_str, put_strings, put_style, put_txn, slot, CommandModel, OpModel, PaintParts, Payload,
    WireError,
};
use crate::scalar::Scalar;
use crate::style::{
    AlignContent, AlignItems, Dimension, Display, Extent, FlexDirection, FlexWrap, LengthPercentage,
    LengthPercentageAuto, Overflow, Position, Sides, Style,
};
use vstd::prelude::*;
use vstd::utf8::{decode_utf8, encode_utf8, valid_utf8};

verus! {

// -------------------------------------------------------------------- keywords

/// The tags of keywords: what each reads as, and that writing is the inverse of
/// reading. A tag that stands for nothing reads as the first keyword.
pub proof fn law_keyword_tags(
    tag: u8,
    display: Display,
    position: Position,
    direction: FlexDirection,
    wrap: FlexWrap,
    overflow: Overflow,
)
    ensures
        display_of(1) == Display::Gone && (tag != 1 ==> display_of(tag) == Display::Flex),
        place_of(1) == Position::Absolute && (tag != 1 ==> place_of(tag) == Position::Relative),
        direction_of(1) == FlexDirection::Column && direction_of(2) == FlexDirection::RowReverse,
        direction_of(3) == FlexDirection::ColumnReverse,
        tag == 0 || tag > 3 ==> direction_of(tag) == FlexDirection::Row,
        wrap_of(1) == FlexWrap::Wrap && wrap_of(2) == FlexWrap::WrapReverse,
        tag == 0 || tag > 2 ==> wrap_of(tag) == FlexWrap::NoWrap,
        overflow_of(1) == Overflow::Clip && overflow_of(2) == Overflow::Hidden && overflow_of(3)
            == Overflow::Scroll,
        tag == 0 || tag > 3 ==> overflow_of(tag) == Overflow::Visible,
        display_of(display_tag(display)) == display && display_tag(display) <= 1,
        place_of(place_tag(position)) == position && place_tag(position) <= 1,
        direction_of(direction_tag(direction)) == direction && direction_tag(direction) <= 3,
        wrap_of(wrap_tag(wrap)) == wrap && wrap_tag(wrap) <= 2,
        overflow_of(overflow_tag(overflow)) == overflow && overflow_tag(overflow) <= 3,
{
}

/// The tags of alignments, which the two kinds of alignment share; any other
/// tag reads as none, and none is written as all ones.
pub proof fn law_alignment_tags(tag: u8, items: Option<AlignItems>, content: Option<AlignContent>)
    ensures
        items_of(0) == Some(AlignItems::Start) && content_of(0) == Some(AlignContent::Start),
        items_of(1) == Some(AlignItems::End) && content_of(1) == Some(AlignContent::End),
        items_of(2) == Some(AlignItems::FlexStart) && content_of(2) == Some(
            AlignContent::FlexStart,
        ),
        items_of(3) == Some(AlignItems::FlexEnd) && content_of(3) == Some(AlignContent::FlexEnd),
        items_of(4) == Some(AlignItems::SelfStart) && content_of(4) is None,
        items_of(5) == Some(AlignItems::SelfEnd) && content_of(5) is None,
        items_of(6) == Some(AlignItems::Center) && content_of(6) == Some(AlignContent::Center),
        items_of(7) == Some(AlignItems::Baseline) && content_of(7) is None,
        items_of(8) == Some(AlignItems::Stretch) && content_of(8) == Some(AlignContent::Stretch),
        items_of(9) is None && content_of(9) == Some(AlignContent::SpaceBetween),
        items_of(10) is None && content_of(10) == Some(AlignContent::SpaceEvenly),
        items_of(11) is None && content_of(11) == Some(AlignContent::SpaceAround),
        tag > 11 ==> items_of(tag) is None && content_of(tag) is None,
        items_of(items_tag(items)) == items && content_of(content_tag(content)) == content,
        items_tag(None) == 0xFF && content_tag(None) == 0xFF,
{
}

// --------------------------------------------------------------------- lengths

/// A length is a tag, then its number where it has one: 0 a length, 1 a
/// percentage, 2 automatic, and the other dimensions from 3 to 9.
pub proof fn law_length_bytes(f: Scalar)
    ensures
        put_lp(LengthPercentage::Length(f)) == seq![0u8] + put_u32(f.0),
        put_lp(LengthPercentage::Percent(f)) == seq![1u8] + put_u32(f.0),
        put_lpa(LengthPercentageAuto::Length(f)) == seq![0u8] + put_u32(f.0),
        put_lpa(LengthPercentageAuto::Percent(f)) == seq![1u8] + put_u32(f.0),
        put_lpa(LengthPercentageAuto::Auto) == seq![2u8],
        put_dim(Dimension::Length(f)) == seq![0u8] + put_u32(f.0),
        put_dim(Dimension::Percent(f)) == seq![1u8] + put_u32(f.0),
        put_dim(Dimension::Auto) == seq![2u8],
        put_dim(Dimension::MinContent) == seq![3u8],
        put_dim(Dimension::MaxContent) == seq![4u8],
        put_dim(Dimension::FitContentPx(f)) == seq![5u8] + put_u32(f.0),
        put_dim(Dimension::FitContentPercent(f)) == seq![6u8] + put_u32(f.0),
        put_dim(Dimension::FitContent) == seq![7u8],
        put_dim(Dimension::Stretch) == seq![8u8],
        put_dim(Dimension::Content) == seq![9u8],
{
}

/// A tag that no length has is refused for a plain length, reads as automatic
/// where that is allowed, and as content for a dimension.
pub proof fn law_other_length_tags(b: Seq<u8>, p: int)
    requires
        0 <= p < b.len(),
    ensures
        b[p] > 1 ==> get_lp(b, p) is None,
        b[p] > 1 ==> get_lpa(b, p) == Some((LengthPercentageAuto::Auto, p + 1)),
        b[p] > 8 ==> get_dim(b, p) == Some((Dimension::Content, p + 1)),
        p + 5 > b.len() && b[p] <= 1 ==> get_lp(b, p) is None && get_lpa(b, p) is None && get_dim(
            b,
            p,
        ) is None,
        p + 5 <= b.len() ==> {
            let f = get_scalar(b, p + 1).unwrap().0;
            &&& b[p] == 0 ==> get_lp(b, p) == Some((LengthPercentage::Length(f), p + 5))
            &&& b[p] == 1 ==> get_lp(b, p) == Some((LengthPercentage::Percent(f), p + 5))
            &&& b[p] == 0 ==> get_lpa(b, p) == Some((LengthPercentageAuto::Length(f), p + 5))
            &&& b[p] == 1 ==> get_lpa(b, p) == Some((LengthPercentageAuto::Percent(f), p + 5))
            &&& b[p] == 0 ==> get_dim(b, p) == Some((Dimension::Length(f), p + 5))
            &&& b[p] == 1 ==> get_dim(b, p) == Some((Dimension::Percent(f), p + 5))
            &&& b[p] == 5 ==> get_dim(b, p) == Some((Dimension::FitContentPx(f), p + 5))
            &&& b[p] == 6 ==> get_dim(b, p) == Some((Dimension::FitContentPercent(f), p + 5))
        },
{
}

/// Pairs are width and height; sides are left, right, top, bottom. A missing
/// ratio is a NaN.
pub proof fn law_boxes_in_order(
    lp: Extent<LengthPercentage>,
    lpa: Extent<LengthPercentageAuto>,
    dim: Extent<Dimension>,
    a: Sides<LengthPercentage>,
    c: Sides<LengthPercentageAuto>,
    f: Scalar,
)
    ensures
        put_lp_pair(lp) == put_lp(lp.width) + put_lp(lp.height),
        put_lpa_pair(lpa) == put_lpa(lpa.width) + put_lpa(lpa.height),
        put_dim_pair(dim) == put_dim(dim.width) + put_dim(dim.height),
        put_lp_sides(a) == put_lp(a.left) + (put_lp(a.right) + (put_lp(a.top) + put_lp(a.bottom))),
        put_lpa_sides(c) == put_lpa(c.left) + (put_lpa(c.right) + (put_lpa(c.top) + put_lpa(
            c.bottom,
        ))),
        ratio_of(f) is None <==> f.nan(),
        ratio_of(f) is Some ==> ratio_of(f) == Some(f),
        ratio_bits(Some(f)) == f.0,
        Scalar(ratio_bits(None)).nan(),
{
}

// ----------------------------------------------------------------------- styles

/// Bit `k` of the mask selects field `k`.
pub proof fn law_mask_bits(mask: u64, k: u64)
    requires
        k < 64,
    ensures
        selects(mask, k as int) <==> mask & (1u64 << k) != 0,
{
    assert((mask >> k) & 1 == 1 <==> mask & (1u64 << k) != 0) by (bit_vector)
        requires
            k < 64,
    ;
}

/// The fields of a style by their number.
pub proof fn law_fields_by_number(s: Style)
    ensures
        put_field(0, s) == seq![display_tag(s.display)],
        put_field(1, s) == seq![place_tag(s.position)],
        put_field(2, s) == seq![direction_tag(s.flex_direction)],
        put_field(3, s) == seq![wrap_tag(s.flex_wrap)],
        put_field(4, s) == seq![content_tag(s.justify_content)],
        put_field(5, s) == seq![items_tag(s.align_items)],
        put_field(6, s) == seq![content_tag(s.align_content)],
        put_field(7, s) == seq![items_tag(s.align_self)],
        put_field(8, s) == put_lp_pair(s.gap),
        put_field(9, s) == put_dim_pair(s.size),
        put_field(10, s) == put_lpa_pair(s.min_size),
        put_field(11, s) == put_lpa_pair(s.max_size),
        put_field(12, s) == put_lp_sides(s.padding),
        put_field(13, s) == put_lpa_sides(s.margin),
        put_field(14, s) == put_lp_sides(s.border),
        put_field(15, s) == put_lpa_sides(s.inset),
        put_field(16, s) == put_dim(s.flex_basis),
        put_field(17, s) == put_u32(s.flex_grow.0),
        put_field(18, s) == put_u32(s.flex_shrink.0),
        put_field(19, s) == put_u32(ratio_bits(s.aspect_ratio)),
        put_field(20, s) == seq![overflow_tag(s.overflow.x), overflow_tag(s.overflow.y)],
{
    assert(put_field(20, s) =~= seq![overflow_tag(s.overflow.x), overflow_tag(s.overflow.y)]);
}

/// Reading one field leaves every other field as it was.
pub proof fn law_a_field_is_read_alone(b: Seq<u8>, p: int, s: Style)
    ensures
        get_field(0, b, p, s) matches Some((t, q)) ==> t == (Style { display: t.display, ..s }),
        get_field(1, b, p, s) matches Some((t, q)) ==> t == (Style { position: t.position, ..s }),
        get_field(2, b, p, s) matches Some((t, q)) ==> t == (Style {
            flex_direction: t.flex_direction,
            ..s
        }),
        get_field(3, b, p, s) matches Some((t, q)) ==> t == (Style { flex_wrap: t.flex_wrap, ..s }),
        get_field(4, b, p, s) matches Some((t, q)) ==> t == (Style {
            justify_content: t.justify_content,
            ..s
        }),
        get_field(5, b, p, s) matches Some((t, q)) ==> t == (Style {
            align_items: t.align_items,
            ..s
        }),
        get_field(6, b, p, s) matches Some((t, q)) ==> t == (Style {
            align_content: t.align_content,
            ..s
        }),
        get_field(7, b, p, s) matches Some((t, q)) ==> t == (Style {
            align_self: t.align_self,
            ..s
        }),
        get_field(8, b, p, s) matches Some((t, q)) ==> t == (Style { gap: t.gap, ..s }),
        get_field(9, b, p, s) matches Some((t, q)) ==> t == (Style { size: t.size, ..s }),
        get_field(10, b, p, s) matches Some((t, q)) ==> t == (Style { min_size: t.min_size, ..s }),
        get_field(11, b, p, s) matches Some((t, q)) ==> t == (Style { max_size: t.max_size, ..s }),
        get_field(12, b, p, s) matches Some((t, q)) ==> t == (Style { padding: t.padding, ..s }),
        get_field(13, b, p, s) matches Some((t, q)) ==> t == (Style { margin: t.margin, ..s }),
        get_field(14, b, p, s) matches Some((t, q)) ==> t == (Style { border: t.border, ..s }),
        get_field(15, b, p, s) matches Some((t, q)) ==> t == (Style { inset: t.inset, ..s }),
        get_field(16, b, p, s) matches Some((t, q)) ==> t == (Style {
            flex_basis: t.flex_basis,
            ..s
        }),
        get_field(17, b, p, s) matches Some((t, q)) ==> t == (Style { flex_grow: t.flex_grow, ..s }),
        get_field(18, b, p, s) matches Some((t, q)) ==> t == (Style {
            flex_shrink: t.flex_shrink,
            ..s
        }),
        get_field(19, b, p, s) matches Some((t, q)) ==> t == (Style {
            aspect_ratio: t.aspect_ratio,
            ..s
        }),
        get_field(20, b, p, s) matches Some((t, q)) ==> t == (Style { overflow: t.overflow, ..s }),
{
}

/// The lowest selected field comes first, and what follows it is the record of
/// the fields behind it.
pub proof fn law_lowest_field_first(s: Style, mask: u64, from: int, k: int)
    requires
        0 <= from <= k < 21,
        selects(mask, k),
        forall|j: int| from <= j < k ==> !(#[trigger] selects(mask, j)),
    ensures
        put_fields(from, s, mask) == put_field(k, s) + put_fields(k + 1, s, mask),
        put_fields(21, s, mask) == Seq::<u8>::empty(),
    decreases k - from,
{
    if from < k {
        assert(!selects(mask, from));
        law_lowest_field_first(s, mask, from + 1, k);
    }
}

/// A style record starts with its mask. Written, it selects every field; read,
/// the fields that it leaves out are the initial ones.
pub proof fn law_style_record(s: Style, b: Seq<u8>, p: int)
    requires
        0 <= p,
    ensures
        put_style(s) == put_u64(0x1F_FFFF) + put_fields(0, s, 0x1F_FFFF),
        p + 8 > b.len() ==> get_style(b, p) is None,
        get_u64(b, p) == Some((0u64, p + 8)) ==> get_style(b, p) == Some((Style::initial(), p + 8)),
        get_u64(b, p) matches Some((mask, q)) ==> get_style(b, p) == get_fields(
            0,
            b,
            p + 8,
            Style::initial(),
            mask,
        ),
{
    assert forall|j: int| 0 <= j < 21 implies !selects(0, j) by {
        let k = j as u64;
        assert((0u64 >> k) & 1 == 0) by (bit_vector);
    }
    super::fields::law_unselected_fields_stay(0, b, p + 8, Style::initial(), 0);
}

// ------------------------------------------------------------------------- parts

/// Paint starts with a byte that says which parts follow: 1 the fill, 2 the
/// radius, 4 the border; they follow in that order, the border as color and
/// width.
pub proof fn law_paint_bytes(v: PaintParts, b: Seq<u8>, p: int)
    requires
        0 <= p < b.len(),
    ensures
        put_paint(v).len() >= 1,
        put_paint(v)[0] == (if v.fill is Some {
            1int
        } else {
            0
        }) + (if v.radius is Some {
            2int
        } else {
            0
        }) + (if v.border is Some {
            4int
        } else {
            0
        }),
        put_paint(v).skip(1) == put_fill(v.fill) + (put_radius(v.radius) + put_border(v.border)),
        get_paint(b, p) matches Some((r, q)) ==> {
            let radius_at = p + 1 + (if b[p] % 2 == 1 {
                4int
            } else {
                0
            });
            let border_at = radius_at + (if b[p] / 2 % 2 == 1 {
                4int
            } else {
                0
            });
            &&& r.fill is Some <==> b[p] % 2 == 1
            &&& r.radius is Some <==> b[p] / 2 % 2 == 1
            &&& r.border is Some <==> b[p] / 4 % 2 == 1
            &&& r.fill is Some ==> get_u32(b, p + 1) == Some((r.fill.unwrap(), p + 5))
            &&& r.radius is Some ==> get_scalar(b, radius_at) == Some(
                (r.radius.unwrap(), radius_at + 4),
            )
            &&& r.border is Some ==> get_u32(b, border_at) == Some(
                (r.border.unwrap().0, border_at + 4),
            ) && get_scalar(b, border_at + 4) == Some((r.border.unwrap().1, border_at + 8))
            &&& q == border_at + (if r.border is Some {
                8int
            } else {
                0
            })
        },
{
    let parts = put_fill(v.fill) + (put_radius(v.radius) + put_border(v.border));
    assert(put_paint(v).skip(1) =~= parts);
}

/// What a written part of paint is: the color, the radius, the border's color
/// and then its width; a missing part takes no bytes.
pub proof fn law_paint_parts(color: u32, f: Scalar)
    ensures
        put_fill(Some(color)) == put_u32(color) && put_fill(None).len() == 0,
        put_radius(Some(f)) == put_u32(f.0) && put_radius(None).len() == 0,
        put_border(Some((color, f))) == put_u32(color) + put_u32(f.0) && put_border(None).len()
            == 0,
{
}

/// Commands by their tag: 0 focus, 1 blur, 2 a text, 3 a scroll; any other tag
/// is refused.
pub proof fn law_command_bytes(
    text: Seq<char>,
    x: Scalar,
    y: Scalar,
    st: Seq<Seq<char>>,
    b: Seq<u8>,
    p: int,
)
    requires
        0 <= p < b.len(),
    ensures
        put_cmd(CommandModel::Focus, st) == seq![0u8],
        put_cmd(CommandModel::Blur, st) == seq![1u8],
        put_cmd(CommandModel::SetInputText(text), st) == seq![2u8] + put_str(text, st),
        put_cmd(CommandModel::ScrollTo(x, y), st) == seq![3u8] + (put_u32(x.0) + put_u32(y.0)),
        b[p] > 3 ==> get_cmd(b, p, st) is None,
        b[p] == 0 ==> get_cmd(b, p, st) == Some((CommandModel::Focus, p + 1)),
        b[p] == 1 ==> get_cmd(b, p, st) == Some((CommandModel::Blur, p + 1)),
{
}

/// A text is written as the place of its first occurrence in the table, and a
/// place outside the table is refused.
pub proof fn law_texts_by_place(st: Seq<Seq<char>>, text: Seq<char>, i: int, b: Seq<u8>, p: int)
    requires
        0 <= i < st.len(),
        st[i] == text,
        forall|j: int| 0 <= j < i ==> st[j] != text,
        st.len() <= u32::MAX,
    ensures
        put_str(text, st) == put_u32(i as u32),
        get_u32(b, p) matches Some((n, q)) ==> (if n < st.len() {
            get_str(b, p, st) == Some((st[n as int], q))
        } else {
            get_str(b, p, st) is None
        }),
{
    lemma_slot(st, text);
    assert(st.contains(text));
    let k = slot(st, text);
    if i < k {
        assert(st[i] != text);
    }
    if k < i {
        assert(st[k] != text);
    }
}

// --------------------------------------------------------------------------- ops

/// The bytes of each op: its tag, then its fields in order.
pub proof fn law_op_bytes(
    id: u32,
    other: u32,
    third: u32,
    byte: u8,
    on: bool,
    f: Scalar,
    text: Seq<char>,
    style: Style,
    paint: PaintParts,
    cmd: CommandModel,
    data: Payload,
    st: Seq<Seq<char>>,
)
    ensures
        put_op(OpModel::Create { id, kind: byte }, st) == seq![0x01u8] + (put_u32(id)
            + seq![byte]),
        put_op(OpModel::SetText { id, text }, st) == seq![0x02u8] + (put_u32(id) + put_str(
            text,
            st,
        )),
        put_op(OpModel::TextProps { id, font_size: f, color: other }, st) == seq![0x03u8] + (
        put_u32(id) + (put_u32(f.0) + put_u32(other))),
        put_op(OpModel::SetStyle { id, wire_style: other }, st) == seq![0x04u8] + (put_u32(id)
            + put_u32(other)),
        put_op(OpModel::Place { parent: id, child: other, before: third }, st) == seq![0x05u8] + (
        put_u32(id) + (put_u32(other) + put_u32(third))),
        put_op(OpModel::Detach { id }, st) == seq![0x06u8] + put_u32(id),
        put_op(OpModel::Remove { id }, st) == seq![0x07u8] + put_u32(id),
        put_op(OpModel::Hidden { id, hidden: on }, st) == seq![0x08u8] + (put_u32(id) + put_bool(
            on,
        )),
        put_op(OpModel::Style { wire_id: id, style }, st) == seq![0x09u8] + (put_u32(id)
            + put_style(style)),
        put_op(OpModel::ViewPaint { id, color: other }, st) == seq![0x0Au8] + (put_u32(id)
            + put_u32(other)),
        put_op(OpModel::Paint { id, paint }, st) == seq![0x0Bu8] + (put_u32(id) + put_paint(paint)),
        put_op(OpModel::Props { id, listeners: other, focusable: on }, st) == seq![0x0Cu8] + (
        put_u32(id) + (put_u32(other) + put_bool(on))),
        put_op(
            OpModel::InputProps {
                id,
                font_size: f,
                color: other,
                placeholder: text,
                multiline: on,
            },
            st,
        ) == seq![0x0Du8] + (put_u32(id) + (put_u32(f.0) + (put_u32(other) + (put_str(text, st)
            + put_bool(on))))),
        put_op(OpModel::Command { id, cmd }, st) == seq![0x0Eu8] + (put_u32(id) + put_cmd(
            cmd,
            st,
        )),
        put_op(OpModel::Custom { id, tag: other, data, text }, st) == seq![0x0Fu8] + (put_u32(id)
            + (put_u32(other) + (put_payload(data) + put_str(text, st)))),
        put_op(OpModel::Label { id, text }, st) == seq![0x10u8] + (put_u32(id) + put_str(text, st)),
        put_payload(data) == put_u32(data.0.0) + (put_u32(data.1.0) + (put_u32(data.2.0) + put_u32(
            data.3.0,
        ))),
{
}

/// Fields of the ops that move a node, as they are read: parent, child, then
/// the sibling, each in four bytes behind the tag.
pub proof fn law_place_is_read_in_order(b: Seq<u8>, p: int, st: Seq<Seq<char>>)
    requires
        0 <= p,
        p + 13 <= b.len(),
        b[p] == 0x05,
    ensures
        get_op(b, p, st) == Ok::<(OpModel, int), WireError>(
            (
                OpModel::Place {
                    parent: get_u32(b, p + 1).unwrap().0,
                    child: get_u32(b, p + 5).unwrap().0,
                    before: get_u32(b, p + 9).unwrap().0,
                },
                p + 13,
            ),
        ),
{
    reveal(super::format::get_place_op);
}

/// Ops on one node alone are five bytes long.
pub proof fn law_short_ops_are_read(b: Seq<u8>, p: int, st: Seq<Seq<char>>)
    requires
        0 <= p < b.len(),
        b[p] == 0x06 || b[p] == 0x07,
    ensures
        p + 5 > b.len() ==> get_op(b, p, st) == Err::<(OpModel, int), WireError>(
            WireError::Truncated,
        ),
        p + 5 <= b.len() ==> get_op(b, p, st) == Ok::<(OpModel, int), WireError>(
            (
                if b[p] == 0x06 {
                    OpModel::Detach { id: get_u32(b, p + 1).unwrap().0 }
                } else {
                    OpModel::Remove { id: get_u32(b, p + 1).unwrap().0 }
                },
                p + 5,
            ),
        ),
{
    reveal(super::format::get_detach_op);
    reveal(super::format::get_remove_op);
}

/// A tag that no op has is told; there are sixteen tags, from 1 on.
pub proof fn law_unknown_tags_are_told(b: Seq<u8>, p: int, st: Seq<Seq<char>>)
    requires
        0 <= p < b.len(),
    ensures
        b[p] == 0 || b[p] > 16 ==> get_op(b, p, st) == Err::<(OpModel, int), WireError>(
            WireError::BadOp(b[p]),
        ),
        1 <= b[p] <= 16 ==> (get_op(b, p, st) matches Err(e) ==> e == WireError::Truncated),
{
}

/// Ops are read until the buffer ends; the first that cannot be read decides.
pub proof fn law_ops_are_read_to_the_end(b: Seq<u8>, p: int, st: Seq<Seq<char>>)
    requires
        0 <= p <= b.len(),
    ensures
        get_ops(b, b.len() as int, st) == Ok::<Seq<OpModel>, WireError>(Seq::empty()),
        p < b.len() ==> match get_op(b, p, st) {
            Err(e) => get_ops(b, p, st) == Err::<Seq<OpModel>, WireError>(e),
            Ok((op, q)) => match get_ops(b, q, st) {
                Err(e) => get_ops(b, p, st) == Err::<Seq<OpModel>, WireError>(e),
                Ok(rest) => get_ops(b, p, st) == Ok::<Seq<OpModel>, WireError>(
                    Seq::empty().push(op) + rest,
                ),
            },
        },
{
    if p < b.len() {
        if let Ok((op, q)) = get_op(b, p, st) {
            assert(seq![op] =~= Seq::empty().push(op));
        }
    }
}

// -------------------------------------------------------------------- transactions

/// A transaction starts with its magic number, its version, two bytes of
/// flags, its number and the size of its string table; the strings follow,
/// each with its length in bytes, then the ops.
pub proof fn law_head_bytes(seq: u64, st: Seq<Seq<char>>, ops: Seq<OpModel>)
    ensures
        ({
            let w = put_txn(seq, st, ops);
            &&& w.len() == 20 + put_strings(st).len() + put_ops(ops, st).len()
            &&& w[0] == 0x43 && w[1] == 0x52 && w[2] == 0x57 && w[3] == 0x31
            &&& get_u32(w, 0) == Some((0x3157_5243u32, 4int))
            &&& get_u16(w, 4) == Some((1u16, 6int))
            &&& get_u16(w, 6) == Some((0u16, 8int))
            &&& get_u64(w, 8) == Some((seq, 16int))
            &&& get_u32(w, 16) == Some((st.len() as u32, 20int))
            &&& w.skip(20) == put_strings(st) + put_ops(ops, st)
        }),
{
    let w = put_txn(seq, st, ops);
    let r5 = put_strings(st) + put_ops(ops, st);
    lemma_whole(w);
    lemma_head(w, seq, st.len() as u32, r5);
    lemma_tail(w, 20, r5);
}

/// Where the parts of a head lie in a buffer that starts with it.
proof fn lemma_head(w: Seq<u8>, seq: u64, n: u32, r5: Seq<u8>)
    requires
        holds(
            w,
            0,
            put_u32(0x3157_5243) + (put_u16(1) + (put_u16(0) + (put_u64(seq) + (put_u32(n)
                + r5)))),
        ),
    ensures
        w[0] == 0x43 && w[1] == 0x52 && w[2] == 0x57 && w[3] == 0x31,
        get_u32(w, 0) == Some((0x3157_5243u32, 4int)),
        get_u16(w, 4) == Some((1u16, 6int)),
        get_u16(w, 6) == Some((0u16, 8int)),
        get_u64(w, 8) == Some((seq, 16int)),
        get_u32(w, 16) == Some((n, 20int)),
        holds(w, 20, r5),
        (put_u32(0x3157_5243) + (put_u16(1) + (put_u16(0) + (put_u64(seq) + (put_u32(n)
            + r5))))).len() == 20 + r5.len(),
{
    let r4 = put_u32(n) + r5;
    let r3 = put_u64(seq) + r4;
    let r2 = put_u16(0) + r3;
    let r1 = put_u16(1) + r2;
    let m = put_u32(0x3157_5243);
    lemma_holds_split(w, 0, m, r1);
    lemma_holds_at(w, 0, m, 0);
    lemma_holds_at(w, 0, m, 1);
    lemma_holds_at(w, 0, m, 2);
    lemma_holds_at(w, 0, m, 3);
    lemma_u32_first(w, 0, 0x3157_5243, r1);
    lemma_u16_first(w, 4, 1, r2);
    lemma_u16_first(w, 6, 0, r3);
    lemma_u64_first(w, 8, seq, r4);
    lemma_u32_first(w, 16, n, r5);
}

proof fn lemma_whole(w: Seq<u8>)
    ensures
        holds(w, 0, w),
{
    assert(w.subrange(0, w.len() as int) =~= w);
}

proof fn lemma_tail(w: Seq<u8>, p: int, r: Seq<u8>)
    requires
        holds(w, p, r),
        w.len() == p + r.len(),
    ensures
        w.skip(p) == r,
{
    assert(w.skip(p) =~= w.subrange(p, p + r.len()));
}

/// A string lies as its length in bytes and its bytes; the strings of a table
/// follow each other.
pub proof fn law_string_bytes(text: Seq<char>, st: Seq<Seq<char>>)
    ensures
        put_strings(Seq::empty()) == Seq::<u8>::empty(),
        put_strings(seq![text] + st) == put_u32(encode_utf8(text).len() as u32) + (encode_utf8(text)
            + put_strings(st)),
{
    let all = seq![text] + st;
    assert(all.drop_first() =~= st);
}

/// Buffers that say nothing: one too short for the magic number, one with
/// another magic number, one with another version, which is told, and one
/// that ends within the head.
pub proof fn law_heads_are_checked(b: Seq<u8>)
    ensures
        b.len() < 4 ==> get_txn(b) == Err::<super::format::TxnModel, WireError>(
            WireError::Truncated,
        ),
        b.len() >= 4 && !(b[0] == 0x43 && b[1] == 0x52 && b[2] == 0x57 && b[3] == 0x31) ==> get_txn(
            b,
        ) == Err::<super::format::TxnModel, WireError>(WireError::BadMagic),
        b.len() >= 4 && b[0] == 0x43 && b[1] == 0x52 && b[2] == 0x57 && b[3] == 0x31 ==> {
            &&& b.len() < 6 ==> get_txn(b) == Err::<super::format::TxnModel, WireError>(
                WireError::Truncated,
            )
            &&& b.len() >= 6 && (b[4] != 1 || b[5] != 0) ==> get_txn(b) == Err::<
                super::format::TxnModel,
                WireError,
            >(WireError::BadVersion((b[4] + 256 * b[5]) as u16))
            &&& b.len() >= 6 && b[4] == 1 && b[5] == 0 && b.len() < 20 ==> get_txn(b) == Err::<
                super::format::TxnModel,
                WireError,
            >(WireError::Truncated)
            &&& b.len() >= 20 && b[4] == 1 && b[5] == 0 ==> get_txn(b) == get_rest(b, 8)
        },
{
    if b.len() >= 4 {
        lemma_magic(b[0], b[1], b[2], b[3]);
    }
}

proof fn lemma_magic(a: u8, b: u8, c: u8, d: u8)
    ensures
        (a + 256 * b + 0x1_0000 * c + 0x100_0000 * d == 0x3157_5243) <==> a == 0x43 && b == 0x52 && c
            == 0x57 && d == 0x31,
{
}

/// What stands behind the flags: the number of the transaction, the table, and
/// the ops, of which none is lost.
pub proof fn law_rest_is_read_in_order(b: Seq<u8>)
    requires
        b.len() >= 20,
    ensures
        ({
            let n = get_u32(b, 16).unwrap().0;
            match get_strings(b, 20, 0, n as int) {
                Err(e) => get_rest(b, 8) == Err::<super::format::TxnModel, WireError>(e),
                Ok((st, q)) => match get_ops(b, q, st) {
                    Err(e) => get_rest(b, 8) == Err::<super::format::TxnModel, WireError>(e),
                    Ok(ops) => get_rest(b, 8) is Ok && get_rest(b, 8).unwrap().ops == ops
                        && get_rest(b, 8).unwrap().seq == get_u64(b, 8).unwrap().0,
                },
            }
        }),
{
}

/// A table is refused where a length is cut off, where a string reaches past
/// the end, with the number of the string, and where its bytes are no text.
pub proof fn law_strings_are_checked(b: Seq<u8>, p: int, i: int, n: int)
    requires
        0 <= i < n <= u32::MAX,
        0 <= p,
    ensures
        p + 4 > b.len() ==> get_strings(b, p, i, n) == Err::<(Seq<Seq<char>>, int), WireError>(
            WireError::Truncated,
        ),
        p + 4 <= b.len() ==> {
            let len = get_u32(b, p).unwrap().0;
            let bytes = b.subrange(p + 4, p + 4 + len);
            &&& p + 4 + len > b.len() ==> get_strings(b, p, i, n) == Err::<
                (Seq<Seq<char>>, int),
                WireError,
            >(WireError::BadString(i as usize))
            &&& p + 4 + len <= b.len() && !valid_utf8(bytes) ==> get_strings(b, p, i, n) == Err::<
                (Seq<Seq<char>>, int),
                WireError,
            >(WireError::BadUtf8)
            &&& p + 4 + len <= b.len() && valid_utf8(bytes) ==> match get_strings(
                b,
                p + 4 + len,
                i + 1,
                n,
            ) {
                Err(e) => get_strings(b, p, i, n) == Err::<(Seq<Seq<char>>, int), WireError>(e),
                Ok((rest, q)) => {
                    &&& get_strings(b, p, i, n) is Ok
                    &&& get_strings(b, p, i, n).unwrap().1 == q
                    &&& get_strings(b, p, i, n).unwrap().0[0] == decode_utf8(bytes)
                    &&& get_strings(b, p, i, n).unwrap().0.skip(1) == rest
                },
            }
        },
        get_strings(b, p, n, n) == Ok::<(Seq<Seq<char>>, int), WireError>((Seq::empty(), p)),
{
    if p + 4 <= b.len() {
        let len = get_u32(b, p).unwrap().0;
        if let Ok((rest, q)) = get_strings(b, p + 4 + len, i + 1, n) {
            let first = decode_utf8(b.subrange(p + 4, p + 4 + len));
            assert((seq![first] + rest).skip(1) =~= rest);
        }
    }
}

} // verus!
