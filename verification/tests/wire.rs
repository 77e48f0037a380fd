use craie::events::{encode_events, mask, mask_for, out_kind, UiEvent};
use craie::host::{Host, NodeId, StyleId};
use craie::layout::Layouts;
use craie::scalar::Scalar;
use craie::style::{
    AlignContent, AlignItems, Dimension, Display, Extent, FlexDirection, FlexWrap,
    LengthPercentage, LengthPercentageAuto, Overflow, OverflowAxes, Position, Sides, Style,
};
use craie::wire::fields::{put_style_fields, FLEX_GROW, GAP};
use craie::wire::format::STYLE;
use craie::wire::{decode, Command, Encoder, Op, Payload, WireError};

fn f(x: f32) -> Scalar {
    Scalar(x.to_bits())
}

fn lp(x: f32) -> LengthPercentage {
    LengthPercentage::Length(f(x))
}

fn sample_style() -> Style {
    Style {
        display: Display::Flex,
        position: Position::Absolute,
        flex_direction: FlexDirection::Column,
        flex_wrap: FlexWrap::Wrap,
        justify_content: Some(AlignContent::SpaceBetween),
        align_items: Some(AlignItems::Center),
        align_content: Some(AlignContent::Stretch),
        align_self: Some(AlignItems::FlexEnd),
        gap: Extent {
            width: lp(8.0),
            height: LengthPercentage::Percent(f(0.5)),
        },
        size: Extent {
            width: Dimension::Percent(f(1.0)),
            height: Dimension::Auto,
        },
        min_size: Extent {
            width: LengthPercentageAuto::Length(f(10.0)),
            height: LengthPercentageAuto::Auto,
        },
        padding: Sides {
            left: lp(1.0),
            right: lp(2.0),
            top: LengthPercentage::Percent(f(0.25)),
            bottom: lp(4.0),
        },
        margin: Sides {
            left: LengthPercentageAuto::Auto,
            right: LengthPercentageAuto::Length(f(6.0)),
            top: LengthPercentageAuto::Percent(f(0.1)),
            bottom: LengthPercentageAuto::Auto,
        },
        flex_basis: Dimension::Length(f(64.0)),
        flex_grow: f(2.0),
        flex_shrink: f(0.5),
        aspect_ratio: Some(f(1.5)),
        ..Style::default()
    }
}

#[test]
fn roundtrip_ops() {
    let mut enc = Encoder::new();
    enc.create(0, 0);
    enc.create(1, 1);
    enc.set_text(1, "héllo — مرحبا");
    enc.text_props(1, f(16.0), 0xFF00FFEE);
    enc.place(0, 1, u32::MAX);
    enc.hidden(1, true);
    enc.hidden(1, false);
    enc.style(7, &sample_style());
    enc.set_style(0, 7);
    enc.detach(1);
    enc.remove(1);
    let buf = enc.finish(42);

    let txn = decode(&buf).expect("decode");
    assert_eq!(txn.seq, 42);
    assert_eq!(txn.ops.len(), 11);
    match &txn.ops[2] {
        Op::SetText { id, text } => {
            assert_eq!(*id, 1);
            assert_eq!(*text, "héllo — مرحبا");
        }
        _ => panic!("op 2 not SetText"),
    }
    match &txn.ops[7] {
        Op::Style { wire_id, style } => {
            assert_eq!(*wire_id, 7);
            assert_eq!(**style, sample_style());
        }
        _ => panic!("op 7 not Style"),
    }
}

#[test]
fn apply_builds_tree() {
    let mut enc = Encoder::new();
    enc.create(0, 0);
    enc.create(1, 1);
    enc.create(2, 1);
    enc.set_text(1, "first");
    enc.set_text(2, "second");
    enc.place(0, 1, u32::MAX);
    enc.place(0, 2, u32::MAX);
    enc.place(u32::MAX, 0, u32::MAX); // root
    let buf = enc.finish(1);
    let txn = decode(&buf).unwrap();

    let mut host = Host::new();
    let mut layouts = Layouts::new();
    txn.apply(&mut host, &mut layouts).unwrap();

    assert_eq!(host.len(), 3);
    assert_eq!(
        host.siblings(host.first_child(NodeId(0))),
        vec![NodeId(1), NodeId(2)]
    );
    assert_eq!(host.text(NodeId(1)).unwrap().text, "first");
    assert!(host.paint_dirty());
}

#[test]
fn apply_style_and_hidden() {
    let mut enc = Encoder::new();
    enc.style(3, &sample_style());
    enc.create(0, 0);
    enc.set_style(0, 3);
    enc.hidden(0, true);
    let buf = enc.finish(1);
    let txn = decode(&buf).unwrap();

    let mut host = Host::new();
    let mut layouts = Layouts::new();
    txn.apply(&mut host, &mut layouts).unwrap();

    let node = host.node(NodeId(0)).unwrap();
    assert!(node.hidden());
    let style = layouts.style(StyleId(node.style));
    assert_eq!(style.flex_direction, FlexDirection::Column);
    assert_eq!(style.padding.left, lp(1.0));
}

#[test]
fn rejects_garbage() {
    assert!(matches!(decode(&[]), Err(WireError::Truncated)));
    assert!(matches!(
        decode(&[0, 1, 2, 3, 4, 5, 6, 7, 8, 9, 10, 11, 12, 13, 14, 15, 16]),
        Err(WireError::BadMagic)
    ));
}

#[test]
fn every_op_survives_the_trip() {
    let mut enc = Encoder::new();
    enc.create(0, 2);
    enc.view_paint(0, 0x1020_3040);
    enc.paint(0, Some(1), None, Some((2, f(3.0))));
    enc.props(0, mask::KEY, true);
    enc.input_props(0, f(12.0), 5, "hint", true);
    enc.command(0, Command::Focus);
    enc.command(0, Command::Blur);
    enc.command(0, Command::SetInputText("body"));
    enc.command(0, Command::ScrollTo(f(1.0), f(2.0)));
    enc.custom(0, 9, Payload(f(1.0), f(2.0), f(3.0), f(4.0)), "data");
    enc.label(0, "name");
    enc.clear_style(0);
    let buf = enc.finish(7);
    let txn = decode(&buf).unwrap();
    assert_eq!(txn.seq, 7);
    assert_eq!(txn.ops.len(), 12);
    assert!(matches!(txn.ops[0], Op::Create { id: 0, kind: 2 }));
    assert!(matches!(txn.ops[1], Op::ViewPaint { id: 0, color: 0x1020_3040 }));
    match &txn.ops[2] {
        Op::Paint { id, paint } => {
            assert_eq!(*id, 0);
            assert_eq!(paint.fill, Some(1));
            assert_eq!(paint.radius, None);
            assert_eq!(paint.border, Some((2, f(3.0))));
        }
        _ => panic!("op 2 not Paint"),
    }
    assert!(matches!(txn.ops[3], Op::Props { id: 0, listeners: mask::KEY, focusable: true }));
    match &txn.ops[4] {
        Op::InputProps { font_size, color, placeholder, multiline, .. } => {
            assert_eq!(*font_size, f(12.0));
            assert_eq!(*color, 5);
            assert_eq!(*placeholder, "hint");
            assert!(*multiline);
        }
        _ => panic!("op 4 not InputProps"),
    }
    assert!(matches!(txn.ops[5], Op::Command { id: 0, cmd: Command::Focus }));
    assert!(matches!(txn.ops[6], Op::Command { id: 0, cmd: Command::Blur }));
    assert!(matches!(txn.ops[7], Op::Command { id: 0, cmd: Command::SetInputText("body") }));
    match &txn.ops[8] {
        Op::Command { cmd: Command::ScrollTo(x, y), .. } => {
            assert_eq!((*x, *y), (f(1.0), f(2.0)));
        }
        _ => panic!("op 8 not ScrollTo"),
    }
    match &txn.ops[9] {
        Op::Custom { tag, data, text, .. } => {
            assert_eq!(*tag, 9);
            assert_eq!((data.0, data.3), (f(1.0), f(4.0)));
            assert_eq!(*text, "data");
        }
        _ => panic!("op 9 not Custom"),
    }
    assert!(matches!(txn.ops[10], Op::Label { id: 0, text: "name" }));
    assert!(matches!(txn.ops[11], Op::SetStyle { id: 0, wire_style: u32::MAX }));
}

#[test]
fn equal_strings_share_one_entry() {
    let mut twice = Encoder::new();
    twice.set_text(0, "same");
    twice.set_text(1, "same");
    let mut apart = Encoder::new();
    apart.set_text(0, "same");
    apart.set_text(1, "diff");
    assert_eq!(twice.finish(0).len() + 8, apart.finish(0).len());
}

#[test]
fn header_errors_are_told_apart() {
    let mut enc = Encoder::new();
    enc.create(0, 0);
    let good = enc.finish(3);
    assert!(decode(&good).is_ok());

    let mut version = good.clone();
    version[4] = 2;
    assert!(matches!(decode(&version), Err(WireError::BadVersion(2))));

    let short = &good[..good.len() - 1];
    assert!(matches!(decode(short), Err(WireError::Truncated)));

    let mut op = good.clone();
    let at = op.len() - 6;
    assert_eq!(op[at], 1);
    op[at] = 0xEE;
    assert!(matches!(decode(&op), Err(WireError::BadOp(0xEE))));
}

#[test]
fn strings_are_checked() {
    let mut enc = Encoder::new();
    enc.set_text(0, "ab");
    let good = enc.finish(1);
    let at = good.windows(2).position(|w| w == b"ab").unwrap();
    let mut bad = good.clone();
    bad[at] = 0xFF;
    assert!(matches!(decode(&bad), Err(WireError::BadUtf8)));

    // A string that runs past the end.
    let mut long = good.clone();
    assert_eq!(long[20], 2);
    long[20] = 200;
    assert!(matches!(decode(&long), Err(WireError::BadString(0))));

    // An op that names a string there is none of.
    let mut index = good.clone();
    let last = index.len() - 4;
    index[last] = 9;
    assert!(matches!(decode(&index), Err(WireError::Truncated)));
}

#[test]
fn a_refused_transaction_changes_nothing() {
    let mut enc = Encoder::new();
    enc.create(0, 0);
    enc.create(1, 1);
    enc.place(7, 1, u32::MAX);
    let buf = enc.finish(1);
    let txn = decode(&buf).unwrap();
    let mut host = Host::new();
    let mut layouts = Layouts::new();
    assert!(matches!(
        txn.apply(&mut host, &mut layouts),
        Err(WireError::Rejected(2))
    ));
    assert!(host.is_empty());

    let mut ring = Encoder::new();
    ring.create(0, 0);
    ring.create(1, 0);
    ring.place(0, 1, u32::MAX);
    ring.place(1, 0, u32::MAX);
    let buf = ring.finish(1);
    let txn = decode(&buf).unwrap();
    assert!(matches!(
        txn.apply(&mut host, &mut layouts),
        Err(WireError::Rejected(3))
    ));
    assert!(host.is_empty());
}

#[test]
fn the_initial_style_is_the_layout_engine_default() {
    let ours = Style::default();
    let theirs: taffy::Style = taffy::Style::default();
    assert_eq!(theirs.display, taffy::Display::Flex);
    assert_eq!(ours.display, Display::Flex);
    assert_eq!(theirs.position, taffy::Position::Relative);
    assert_eq!(ours.position, Position::Relative);
    assert_eq!(theirs.flex_direction, taffy::FlexDirection::Row);
    assert_eq!(ours.flex_direction, FlexDirection::Row);
    assert_eq!(theirs.flex_wrap, taffy::FlexWrap::NoWrap);
    assert_eq!(ours.flex_wrap, FlexWrap::NoWrap);
    assert!(theirs.justify_content.is_none() && ours.justify_content.is_none());
    assert!(theirs.align_items.is_none() && ours.align_items.is_none());
    assert!(theirs.align_content.is_none() && ours.align_content.is_none());
    assert!(theirs.align_self.is_none() && ours.align_self.is_none());
    assert_eq!(theirs.size.width, taffy::Dimension::auto());
    assert_eq!(ours.size, Extent { width: Dimension::Auto, height: Dimension::Auto });
    assert_eq!(theirs.padding.left, taffy::LengthPercentage::length(0.0));
    assert_eq!(ours.padding.left, lp(0.0));
    assert_eq!(theirs.margin.left, taffy::LengthPercentageAuto::length(0.0));
    assert_eq!(ours.margin.left, LengthPercentageAuto::Length(f(0.0)));
    assert_eq!(theirs.inset.left, taffy::LengthPercentageAuto::auto());
    assert_eq!(ours.inset.left, LengthPercentageAuto::Auto);
    assert_eq!(theirs.flex_basis, taffy::Dimension::auto());
    assert_eq!(ours.flex_basis, Dimension::Auto);
    assert_eq!(f(theirs.flex_grow), ours.flex_grow);
    assert_eq!(f(theirs.flex_shrink), ours.flex_shrink);
    assert!(theirs.aspect_ratio.is_none() && ours.aspect_ratio.is_none());
    assert_eq!(theirs.overflow.x, taffy::Overflow::Visible);
    assert_eq!(ours.overflow, OverflowAxes { x: Overflow::Visible, y: Overflow::Visible });
}

#[test]
fn undefined_styles_fall_back() {
    let mut layouts = Layouts::new();
    assert!(!layouts.wire_style_defined(4));
    assert_eq!(*layouts.style(StyleId(u32::MAX)), Style::default());
    let mut gone = Style::default();
    gone.display = Display::Gone;
    layouts.define_style(4, gone);
    assert!(layouts.wire_style_defined(4));
    assert!(!layouts.wire_style_defined(3));
}

#[test]
fn event_frames_hold_their_events() {
    let mut e = UiEvent::new(out_kind::CHANGE, 5);
    e.x = f(1.0);
    e.key = 7;
    e.text = "hi".to_string();
    let one = encode_events(&[e.sent_to(6)]);
    let none = encode_events(&[]);
    let at = one.windows(2).position(|w| w == b"hi").unwrap();
    assert_eq!(at, one.len() - 2);
    assert_eq!(one.len() - none.len(), 4 + 4 + 4 * 4 + 4 + 4 + 2);
    assert_eq!(one[none.len()], out_kind::CHANGE);
    assert_eq!(one[none.len() + 4], 6);
}

#[test]
fn kinds_map_to_their_masks() {
    assert_eq!(mask_for(out_kind::POINTER_MOVE), mask::POINTER_MOVE);
    assert_eq!(mask_for(out_kind::POINTER_ENTER), mask::POINTER_ENTER_LEAVE);
    assert_eq!(mask_for(out_kind::POINTER_LEAVE), mask::POINTER_ENTER_LEAVE);
    assert_eq!(mask_for(out_kind::KEY_UP), mask::KEY);
    assert_eq!(mask_for(out_kind::BLUR), mask::FOCUS);
    assert_eq!(mask_for(out_kind::SUBMIT), mask::INPUT);
    assert_eq!(mask_for(out_kind::SCROLL), mask::SCROLL);
    assert_eq!(mask_for(99), 0);
}

#[test]
fn a_nan_ratio_arrives_as_missing() {
    let odd = Style { aspect_ratio: Some(f(f32::NAN)), ..sample_style() };
    let mut enc = Encoder::new();
    enc.create(0, 0);
    enc.style(7, &odd);
    let before = decode(&enc.finish(5)).unwrap().ops.len();
    enc.hidden(3, true);
    let buf = enc.finish(5);
    let txn = decode(&buf).unwrap();
    assert_eq!(txn.seq, 5);
    assert_eq!(txn.ops.len(), before + 1);
    match &txn.ops[1] {
        Op::Style { wire_id, style } => {
            assert_eq!(*wire_id, 7);
            assert_eq!(**style, Style { aspect_ratio: None, ..sample_style() });
        }
        _ => panic!("op 1 not Style"),
    }
    assert!(matches!(txn.ops[2], Op::Hidden { id: 3, hidden: true }));
}

#[test]
fn a_partial_style_keeps_the_other_fields_initial() {
    let mask: u64 = 1 << GAP | 1 << FLEX_GROW;
    let mut bytes = Encoder::new().finish(9);
    bytes.push(STYLE);
    bytes.extend_from_slice(&4u32.to_le_bytes());
    bytes.extend_from_slice(&mask.to_le_bytes());
    put_style_fields(&mut bytes, &sample_style(), mask);
    let txn = decode(&bytes).unwrap();
    assert_eq!(txn.ops.len(), 1);
    match &txn.ops[0] {
        Op::Style { wire_id, style } => {
            let want = Style {
                gap: sample_style().gap,
                flex_grow: sample_style().flex_grow,
                ..Style::default()
            };
            assert_eq!(*wire_id, 4);
            assert_eq!(**style, want);
        }
        _ => panic!("op 0 not Style"),
    }
}
