use craie::events::{mask, out_kind, Button, Event, Key, Mods};
use craie::geom::{Point, Rect, Size};
use craie::gpu::{sync_atlas, Rows, Upload};
use craie::host::{Host, NodeId, NodeKind, ROOT};
use craie::layout::{invalidate, LayoutData, Layouts};
use craie::scalar::Scalar;
use craie::style::{Dimension, Display, Extent, FlexDirection, Style};
use craie::text::atlas::GlyphAtlas;
use craie::ui::hit::{Edges, Placed};
use craie::ui::model::Facts;
use craie::ui::Ui;
use craie::wire::{decode, Encoder, Op};
use taffy::{
    AvailableSpace, LayoutInput, LayoutOutput, Line, RequestedAxis, RunMode, SizingMode,
};

fn f(x: f32) -> Scalar {
    Scalar(x.to_bits())
}

fn edges(x0: f32, y0: f32, x1: f32, y1: f32) -> Edges {
    Edges { x0: f(x0), y0: f(y0), x1: f(x1), y1: f(y1) }
}

fn place(x0: f32, y0: f32, x1: f32, y1: f32) -> Placed {
    let e = edges(x0, y0, x1, y1);
    Placed { border: e, pad: e }
}

fn facts(placed: Vec<Placed>) -> Facts {
    let n = placed.len();
    let zero = Point::new(f(0.0), f(0.0));
    Facts {
        placed,
        offset: vec![zero; n],
        content: vec![zero; n],
        scrolled: vec![zero; n],
        near: false,
    }
}

/// Two leaves side by side under one root.
fn pair() -> (Ui, Vec<Placed>) {
    let mut enc = Encoder::new();
    enc.create(0, 0);
    enc.place(u32::MAX, 0, u32::MAX);
    for id in 1..3 {
        enc.create(id, 0);
        enc.place(0, id, u32::MAX);
        enc.props(
            id,
            mask::POINTER_DOWN | mask::POINTER_UP | mask::POINTER_MOVE | mask::POINTER_ENTER_LEAVE,
            true,
        );
    }
    let mut ui = Ui::new(f(1.0));
    ui.apply(&enc.finish(1)).unwrap();
    let at = vec![
        place(0.0, 0.0, 20.0, 10.0),
        place(0.0, 0.0, 10.0, 10.0),
        place(10.0, 0.0, 20.0, 10.0),
    ];
    (ui, at)
}

fn kinds(ui: &mut Ui) -> Vec<(u8, u32)> {
    ui.take_events().iter().map(|e| (e.kind, e.node)).collect()
}

#[test]
fn a_press_captures_the_pointer() {
    let (mut ui, at) = pair();
    let mods = Mods::default();
    let button = Button::Primary;
    ui.dispatch(&Event::PointerDown { x: f(5.0), y: f(5.0), button, mods }, &facts(at.clone()));
    assert_eq!(ui.captured(), Some(NodeId(1)));
    let _ = ui.take_events();
    // The pointer moves over the other leaf, but the first keeps it.
    ui.dispatch(&Event::PointerMove { x: f(15.0), y: f(5.0) }, &facts(at.clone()));
    assert_eq!(
        kinds(&mut ui),
        vec![(out_kind::POINTER_ENTER, 2), (out_kind::POINTER_MOVE, 1)]
    );
    ui.dispatch(&Event::PointerUp { x: f(15.0), y: f(5.0), button }, &facts(at.clone()));
    assert_eq!(kinds(&mut ui), vec![(out_kind::POINTER_UP, 1)]);
    assert_eq!(ui.captured(), None);
    ui.dispatch(&Event::PointerMove { x: f(5.0), y: f(5.0) }, &facts(at));
    assert_eq!(
        kinds(&mut ui),
        vec![
            (out_kind::POINTER_LEAVE, 2),
            (out_kind::POINTER_ENTER, 1),
            (out_kind::POINTER_MOVE, 1)
        ]
    );
}

#[test]
fn a_press_on_nothing_blurs() {
    let (mut ui, at) = pair();
    ui.set_focus(Some(NodeId(2)));
    let mods = Mods::default();
    let press = Event::PointerDown { x: f(90.0), y: f(5.0), button: Button::Primary, mods };
    ui.dispatch(&press, &facts(at));
    assert_eq!(ui.focused(), None);
    // Nobody listens for focus changes, so nobody hears of this one.
    assert!(ui.take_events().is_empty());
}

#[test]
fn window_focus_loss_drops_the_capture() {
    let (mut ui, at) = pair();
    let mods = Mods::default();
    let press = Event::PointerDown { x: f(5.0), y: f(5.0), button: Button::Primary, mods };
    ui.dispatch(&press, &facts(at.clone()));
    ui.dispatch(&Event::Focus(false), &facts(at));
    assert_eq!(ui.captured(), None);
}

#[test]
fn later_siblings_are_hit_first() {
    let (ui, mut at) = pair();
    at[2] = place(5.0, 0.0, 20.0, 10.0);
    assert_eq!(ui.hit_test(f(7.0), f(5.0), &at), Some(NodeId(2)));
    assert_eq!(ui.hit_test(f(2.0), f(5.0), &at), Some(NodeId(1)));
    // Near edges belong to a box, far edges do not.
    assert_eq!(ui.hit_test(f(0.0), f(0.0), &at), Some(NodeId(1)));
    assert_eq!(ui.hit_test(f(20.0), f(5.0), &at), None);
    assert_eq!(ui.hit_test(f(f32::NAN), f(5.0), &at), None);
}

#[test]
fn key_codes_are_their_own() {
    let all = [
        Key::Unknown,
        Key::Backspace,
        Key::Tab,
        Key::Enter,
        Key::Escape,
        Key::Left,
        Key::Up,
        Key::Right,
        Key::Down,
        Key::Home,
        Key::End,
        Key::PageUp,
        Key::PageDown,
        Key::Delete,
    ];
    let codes: Vec<u32> = all.iter().map(|k| k.code()).collect();
    assert_eq!(codes, (0..14).collect::<Vec<u32>>());
}

#[test]
fn props_and_labels_ask_for_no_paint() {
    let (mut ui, _) = pair();
    ui.host.clear_paint_dirty();
    let mut enc = Encoder::new();
    enc.props(1, mask::KEY, false);
    enc.label(1, "name");
    enc.create(9, 1);
    ui.apply(&enc.finish(2)).unwrap();
    assert!(!ui.needs_paint());
    assert_eq!(ui.host.children(NodeId(0)), [NodeId(1), NodeId(2)]);
    assert_eq!(ui.a11y_label(NodeId(1)), Some("name"));
    let mut enc = Encoder::new();
    enc.hidden(1, true);
    ui.apply(&enc.finish(3)).unwrap();
    assert!(ui.needs_paint());
}

fn query() -> LayoutInput {
    LayoutInput {
        run_mode: RunMode::PerformLayout,
        sizing_mode: SizingMode::InherentSize,
        axis: RequestedAxis::Both,
        known_dimensions: taffy::Size { width: None, height: None },
        known_dimensions_are_definite: taffy::Size { width: true, height: true },
        parent_size: taffy::Size { width: None, height: None },
        available_space: taffy::Size {
            width: AvailableSpace::MaxContent,
            height: AvailableSpace::MaxContent,
        },
        vertical_margins_are_collapsible: Line { start: false, end: false },
    }
}

fn answer() -> LayoutOutput {
    LayoutOutput::from_outer_size(taffy::Size { width: 3.0, height: 4.0 })
}

fn chain() -> (Host, Layouts) {
    let mut host = Host::new();
    let mut layouts = Layouts::new();
    for i in 0..4 {
        host.create(NodeId(i), NodeKind(NodeKind::VIEW)).unwrap();
    }
    host.append_child(NodeId(ROOT), NodeId(0));
    host.append_child(NodeId(0), NodeId(1));
    host.append_child(NodeId(1), NodeId(2));
    host.append_child(NodeId(0), NodeId(3));
    invalidate(&mut host, &mut layouts);
    for i in 0..4 {
        layouts.cache_row(NodeId(i)).store(&query(), answer());
    }
    (host, layouts)
}

fn cached(layouts: &mut Layouts, id: u32) -> bool {
    layouts.cache_row(NodeId(id)).get(&query()).is_some()
}

#[test]
fn invalidation_goes_up_to_the_root() {
    let (mut host, mut layouts) = chain();
    assert!((0..4).all(|i| cached(&mut layouts, i)));
    host.set_style(NodeId(2), 5);
    invalidate(&mut host, &mut layouts);
    assert!(!cached(&mut layouts, 2));
    assert!(!cached(&mut layouts, 1));
    assert!(!cached(&mut layouts, 0));
    // What is beside the path keeps its cache.
    assert!(cached(&mut layouts, 3));
    // A slot beyond the table starts empty.
    assert!(!cached(&mut layouts, 40));
}

#[test]
fn a_redefined_style_empties_every_cache() {
    let (mut host, mut layouts) = chain();
    let mut enc = Encoder::new();
    enc.style(2, &Style::default());
    let first = enc.finish(1);
    decode(&first).unwrap().apply(&mut host, &mut layouts).unwrap();
    assert!(cached(&mut layouts, 3));
    decode(&first).unwrap().apply(&mut host, &mut layouts).unwrap();
    assert!((0..4).all(|i| !cached(&mut layouts, i)));
}

#[test]
fn unselected_fields_keep_their_default() {
    // One style record whose mask selects display and flex direction only.
    let mut enc = Encoder::new();
    enc.create(0, 0);
    let mut buf = enc.finish(1);
    buf.truncate(buf.len() - 6);
    buf.push(0x09);
    buf.extend_from_slice(&7u32.to_le_bytes());
    let mut full = Encoder::new();
    let mut want = Style::default();
    want.display = Display::Gone;
    want.flex_direction = FlexDirection::Column;
    full.style(7, &want);
    let record = full.finish(1);
    let fields = &record[record.len() - (record.len() - 20 - 5 - 8)..];
    buf.extend_from_slice(&0b101u64.to_le_bytes());
    buf.push(fields[0]);
    buf.push(fields[2]);
    match &decode(&buf).unwrap().ops[0] {
        Op::Style { wire_id, style } => {
            assert_eq!(*wire_id, 7);
            assert_eq!(**style, want);
        }
        _ => panic!("a style was sent"),
    }
}

fn paste(tex: &mut [u8], side: usize, u: &Upload, page: &[u8]) {
    let bpp = if u.color { 4 } else { 1 };
    let rows: &[u8] = match &u.rows {
        Rows::Whole(start, end) => &page[*start..*end],
        Rows::Packed(bytes) => bytes,
    };
    let w = (u.rect.max_x - u.rect.min_x) as usize * bpp;
    for r in 0..(u.rect.max_y - u.rect.min_y) as usize {
        let to = (u.rect.min_y as usize + r) * side * bpp + u.rect.min_x as usize * bpp;
        let from = r * u.row_pitch as usize;
        tex[to..to + w].copy_from_slice(&rows[from..from + w]);
    }
}

#[test]
fn uploads_keep_a_layer_up_to_date() {
    let mut atlas = GlyphAtlas::for_test(64, 1, 1);
    let mut layer = vec![0u8; 64 * 64];
    let mut caps = None;
    for n in 1..=6u8 {
        atlas.write_alpha(5, 3 + n as u32, &vec![n; 5 * (3 + n as usize)]).unwrap();
        let plan = sync_atlas(&mut atlas, caps);
        if plan.rebuild.is_some() {
            caps = plan.rebuild;
            layer = vec![0u8; 64 * 64];
        }
        let (page, dirty) = atlas.page_bytes(false, 0);
        assert!(dirty.is_none());
        for u in &plan.alpha {
            paste(&mut layer, 64, u, page);
        }
        assert_eq!(layer, page);
    }
    // A fresh layer gets everything that was ever written.
    let plan = sync_atlas(&mut atlas, None);
    let (page, _) = atlas.page_bytes(false, 0);
    let mut fresh = vec![0u8; 64 * 64];
    paste(&mut fresh, 64, &plan.alpha[0], page);
    assert_eq!(fresh, page);
}

#[test]
fn glyphs_keep_their_pixels() {
    let mut atlas = GlyphAtlas::for_test(64, 1, 1);
    let first = atlas.write_alpha(6, 6, &[9u8; 36]).unwrap();
    while atlas.write_alpha(7, 5, &[3u8; 35]).is_some() {}
    let (page, _) = atlas.page_bytes(false, 0);
    for r in 0..6usize {
        for c in 0..6usize {
            assert_eq!(page[(first.y as usize + r) * 64 + first.x as usize + c], 9);
        }
    }
}

#[test]
fn layout_data_is_kept_per_node() {
    let (_, mut layouts) = chain();
    assert_eq!(layouts.rect(NodeId(9)), Rect::new(f(0.0), f(0.0), f(0.0), f(0.0)));
    let data = LayoutData {
        rect: Rect::new(f(1.0), f(2.0), f(3.0), f(4.0)),
        content: Point::new(f(0.0), f(0.0)),
        insets: Size::new(f(0.0), f(0.0)),
        clip_box: Rect::new(f(0.0), f(0.0), f(3.0), f(4.0)),
        scroll_extent: Point::new(f(-1.0), f(7.0)),
    };
    layouts.set_final(NodeId(2), data);
    assert_eq!(layouts.rect(NodeId(2)), data.rect);
    assert_eq!(layouts.rect(NodeId(1)), Rect::new(f(0.0), f(0.0), f(0.0), f(0.0)));
    // An extent is never negative.
    assert_eq!(layouts.data(NodeId(2)).scroll_extent, Point::new(f(0.0), f(7.0)));
    assert_eq!(
        Style::default().size,
        Extent { width: Dimension::Auto, height: Dimension::Auto }
    );
}
