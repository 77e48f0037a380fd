use craie::a11y::{aid, nid, A11yAction, A11yId, A11yNode, A11yRole, A11yTree};
use craie::events::{mask, out_kind, Button, Event, Key, KeyInput, Mods};
use craie::geom::{Point, Rect, Size};
use craie::host::{NodeId, NodeKind, ROOT};
use craie::input::{input_paint, EditorCmd, EditorFacts, Snapshot, SELECTION_COLOR};
use craie::layout::LayoutData;
use craie::scalar::Scalar;
use craie::scene::Color;
use craie::style::{Dimension, Display, Extent, FlexDirection, Overflow, OverflowAxes, Style};
use craie::ui::hit::{Edges, Placed};
use craie::ui::model::{Facts, Job};
use craie::ui::paint::{paint_plan, Clip, Content, PaintStep};
use craie::ui::state::{bring_into, A11yOutcome, A11yRequest, Shift};
use craie::ui::Ui;
use craie::wire::{Command, Encoder, Payload};

const KIND_VIEW: u8 = 0;
const KIND_TEXT: u8 = 1;
const KIND_INPUT: u8 = 2;
const KIND_CUSTOM: u8 = 3;
const NIL: u32 = u32::MAX;

fn f(x: f32) -> Scalar {
    Scalar(x.to_bits())
}

fn g(s: Scalar) -> f32 {
    f32::from_bits(s.0)
}

/// A box without insets, clipped and scrolled as its content needs.
fn boxed(x: f32, y: f32, w: f32, h: f32, extent_y: f32) -> LayoutData {
    LayoutData {
        rect: Rect::new(f(x), f(y), f(w), f(h)),
        content: Point::new(f(0.0), f(0.0)),
        insets: Size::new(f(0.0), f(0.0)),
        clip_box: Rect::new(f(0.0), f(0.0), f(w), f(h)),
        scroll_extent: Point::new(f(0.0), f(extent_y)),
    }
}

fn fixed(w: f32, h: f32) -> Style {
    let mut s = Style::default();
    s.size = Extent {
        width: Dimension::Length(f(w)),
        height: Dimension::Length(f(h)),
    };
    s
}

fn scrolling(mut s: Style) -> Style {
    s.overflow = OverflowAxes { x: Overflow::Scroll, y: Overflow::Scroll };
    s
}

/// Absolute border-box origin, scroll offsets applied.
fn origin(ui: &Ui, id: NodeId) -> (f32, f32) {
    let data = ui.layouts.data(id);
    let (mut x, mut y) = (g(data.rect.origin.x), g(data.rect.origin.y));
    let mut cur = id;
    loop {
        let p = ui.host.parent(cur);
        if p.is_nil() || p == NodeId(NodeId::DETACHED) {
            return (x, y);
        }
        let pd = ui.layouts.data(p);
        let off = ui.scroll_offset(p);
        x += g(pd.rect.origin.x) - g(off.x);
        y += g(pd.rect.origin.y) - g(off.y);
        cur = p;
    }
}

fn edges(x: f32, y: f32, r: Rect) -> Edges {
    let (x0, y0) = (x + g(r.origin.x), y + g(r.origin.y));
    Edges {
        x0: f(x0),
        y0: f(y0),
        x1: f(x0 + g(r.size.width)),
        y1: f(y0 + g(r.size.height)),
    }
}

fn placed(ui: &Ui) -> Vec<Placed> {
    (0..ui.host.slot_count() as u32)
        .map(|i| {
            let (x, y) = origin(ui, NodeId(i));
            let d = ui.layouts.data(NodeId(i));
            let border = Rect { origin: Point::new(f(0.0), f(0.0)), size: d.rect.size };
            Placed { border: edges(x, y, border), pad: edges(x, y, d.clip_box) }
        })
        .collect()
}

fn facts(ui: &Ui, x: f32, y: f32, dx: f32, dy: f32) -> Facts {
    let n = ui.host.slot_count() as u32;
    let rel = |i: u32| {
        let (ox, oy) = origin(ui, NodeId(i));
        Point::new(f(x - ox), f(y - oy))
    };
    Facts {
        placed: placed(ui),
        offset: (0..n).map(rel).collect(),
        content: (0..n).map(rel).collect(),
        scrolled: (0..n)
            .map(|i| {
                let o = ui.scroll_offset(NodeId(i));
                Point::new(f(g(o.x) + dx), f(g(o.y) + dy))
            })
            .collect(),
        near: false,
    }
}

/// A single-line editor that only appends.
struct Editor {
    text: String,
    generation: u64,
}

fn run_jobs(ui: &mut Ui, ed: &mut Editor) {
    for job in ui.take_jobs() {
        match &job {
            Job::Act { id, action, .. } => {
                let facts = EditorFacts {
                    raw: Snapshot {
                        text: ed.text.clone(),
                        anchor: ed.text.len(),
                        focus: ed.text.len(),
                    },
                    selected: None,
                };
                let plan = ui.inputs.act(id.0, action, &facts, None);
                match plan.cmd {
                    EditorCmd::Insert(s) => {
                        ed.text.push_str(&s);
                        ed.generation += 1;
                    }
                    EditorCmd::Restore(s) => {
                        ed.text = s.text;
                        ed.generation += 1;
                    }
                    _ => {}
                }
            }
            Job::SetText { text, .. } => {
                ed.text = text.clone();
                ed.generation += 1;
            }
            _ => {}
        }
        ui.settle(&job, ed.generation, ed.text.clone());
    }
}

fn send(ui: &mut Ui, ed: &mut Editor, ev: Event) {
    let facts = match &ev {
        Event::PointerDown { x, y, .. } | Event::PointerUp { x, y, .. } | Event::PointerMove { x, y } => {
            facts(ui, g(*x), g(*y), 0.0, 0.0)
        }
        Event::Wheel { x, y, dx, dy } => facts(ui, g(*x), g(*y), g(*dx), g(*dy)),
        _ => facts(ui, 0.0, 0.0, 0.0, 0.0),
    };
    ui.dispatch(&ev, &facts);
    run_jobs(ui, ed);
    ui.finish(&ev);
}

fn dispatch(ui: &mut Ui, ev: Event) {
    let mut ed = Editor { text: String::new(), generation: 0 };
    send(ui, &mut ed, ev);
}

fn press(x: f32, y: f32) -> Event {
    Event::PointerDown { x: f(x), y: f(y), button: Button::Primary, mods: Mods::default() }
}

fn key(key: Key, text: Option<&str>, mods: Mods) -> Event {
    Event::KeyDown(KeyInput {
        key,
        text: text.map(|t| t.to_string()),
        char: text.map(|t| t.to_string()),
        mods,
    })
}

/// A scrollable 100px container with a 300px column of children.
fn scroll_ui() -> (Ui, NodeId, NodeId) {
    let mut enc = Encoder::new();
    enc.style(1, &scrolling(fixed(100.0, 100.0)));
    enc.style(2, &fixed(100.0, 300.0));
    enc.create(0, KIND_VIEW);
    enc.set_style(0, 1);
    enc.place(NIL, 0, NIL);
    enc.create(1, KIND_VIEW);
    enc.set_style(1, 2);
    enc.place(0, 1, NIL);
    let buf = enc.finish(1);
    let mut ui = Ui::new(f(1.0));
    ui.apply(&buf).unwrap();
    ui.layouts.set_final(NodeId(0), boxed(0.0, 0.0, 100.0, 100.0, 200.0));
    ui.layouts.set_final(NodeId(1), boxed(0.0, 0.0, 100.0, 300.0, 0.0));
    (ui, NodeId(0), NodeId(1))
}

fn hit(ui: &Ui, x: f32, y: f32) -> Option<NodeId> {
    ui.hit_test(f(x), f(y), &placed(ui))
}

/// A wheel event scrolls the nearest scrollable ancestor and emits a
/// SCROLL event when the node subscribed.
#[test]
fn wheel_scrolls_and_reports() {
    let (mut ui, container, child) = scroll_ui();
    // Subscribe to scroll events on the container.
    let mut enc = Encoder::new();
    enc.props(0, mask::SCROLL, false);
    let buf = enc.finish(2);
    ui.apply(&buf).unwrap();

    dispatch(
        &mut ui,
        Event::Wheel { x: f(10.0), y: f(10.0), dx: f(0.0), dy: f(50.0) },
    );
    assert_eq!(ui.scroll_offset(container), Point::new(f(0.0), f(50.0)));

    let events = ui.take_events();
    let scroll = events
        .iter()
        .find(|e| e.kind == out_kind::SCROLL)
        .expect("scroll event emitted");
    assert_eq!(scroll.node, container.0);
    assert_eq!((g(scroll.a), g(scroll.b)), (0.0, 50.0));

    // Scrolled: the hit under (10,10) is still inside the child (the
    // child is 300 tall) but the child must now answer at a scrolled
    // position — a hit at y=250 hits nothing outside the container's
    // clip.
    assert_eq!(hit(&ui, 10.0, 250.0), None);
    assert_eq!(hit(&ui, 10.0, 10.0), Some(child));

    // Clamp at the extent: 300 - 100 = 200.
    dispatch(
        &mut ui,
        Event::Wheel { x: f(10.0), y: f(10.0), dx: f(0.0), dy: f(1000.0) },
    );
    assert_eq!(ui.scroll_offset(container), Point::new(f(0.0), f(200.0)));
}

/// Clipped children are not hit outside the clip rect.
#[test]
fn hit_test_respects_clip() {
    let (ui, _container, _child) = scroll_ui();
    // Child is 300 tall but the container clips at 100.
    assert_eq!(hit(&ui, 50.0, 150.0), None);
}

/// Pointer down focuses the nearest focusable ancestor; Tab cycles
/// the focus ring and emits blur/focus events.
#[test]
fn focus_click_and_tab() {
    let mut enc = Encoder::new();
    enc.style(1, &fixed(50.0, 20.0));
    enc.create(0, KIND_VIEW);
    enc.set_style(0, 1);
    enc.props(0, mask::FOCUS, true);
    enc.place(NIL, 0, NIL);
    enc.create(1, KIND_VIEW);
    enc.set_style(1, 1);
    enc.props(1, mask::FOCUS, true);
    enc.place(0, 1, NIL);
    let buf = enc.finish(1);
    let mut ui = Ui::new(f(1.0));
    ui.apply(&buf).unwrap();
    ui.layouts.set_final(NodeId(0), boxed(0.0, 0.0, 50.0, 20.0, 0.0));
    ui.layouts.set_final(NodeId(1), boxed(0.0, 0.0, 50.0, 20.0, 0.0));

    dispatch(&mut ui, press(10.0, 10.0));
    // The click landed on child 1; its ancestor chain's first
    // focusable is the child itself.
    assert_eq!(ui.focused(), Some(NodeId(1)));
    assert!(ui
        .take_events()
        .iter()
        .any(|e| e.kind == out_kind::FOCUS && e.node == 1));

    // Tab moves to the next focusable (wraps to 0, the parent is
    // earlier in document order).
    dispatch(&mut ui, key(Key::Tab, None, Mods::default()));
    assert_eq!(ui.focused(), Some(NodeId(0)));
    let events = ui.take_events();
    assert!(events.iter().any(|e| e.kind == out_kind::BLUR && e.node == 1));
    assert!(events.iter().any(|e| e.kind == out_kind::FOCUS && e.node == 0));

    // Shift+Tab wraps backward.
    dispatch(
        &mut ui,
        key(Key::Tab, None, Mods { shift: true, ..Mods::default() }),
    );
    assert_eq!(ui.focused(), Some(NodeId(1)));
}

fn input_ui() -> Ui {
    let mut enc = Encoder::new();
    enc.style(1, &fixed(200.0, 30.0));
    enc.create(0, KIND_INPUT);
    enc.set_style(0, 1);
    enc.input_props(0, f(16.0), 0xFFFF_FFFF, "", false);
    enc.props(0, mask::INPUT, true);
    enc.place(NIL, 0, NIL);
    let buf = enc.finish(1);
    let mut ui = Ui::new(f(1.0));
    ui.apply(&buf).unwrap();
    ui.layouts.set_final(NodeId(0), boxed(0.0, 0.0, 200.0, 30.0, 0.0));
    ui
}

/// Typing into a focused input mutates the buffer natively and emits
/// a CHANGE event with the committed text.
#[test]
fn input_typing_changes_buffer() {
    let mut ui = input_ui();
    let mut ed = Editor { text: String::new(), generation: 0 };
    run_jobs(&mut ui, &mut ed);

    // Click into the field, then type.
    send(&mut ui, &mut ed, press(5.0, 5.0));
    assert_eq!(ui.focused(), Some(NodeId(0)));
    let _ = ui.take_events();
    send(&mut ui, &mut ed, key(Key::Unknown, Some("h"), Mods::default()));
    send(&mut ui, &mut ed, key(Key::Unknown, Some("i"), Mods::default()));
    assert_eq!(ed.text, "hi");

    let events = ui.take_events();
    let changes: Vec<&str> = events
        .iter()
        .filter(|e| e.kind == out_kind::CHANGE)
        .map(|e| e.text.as_str())
        .collect();
    assert_eq!(changes, ["h", "hi"]);

    // Enter on single-line emits SUBMIT, not a newline.
    send(&mut ui, &mut ed, key(Key::Enter, None, Mods::default()));
    assert!(ui
        .take_events()
        .iter()
        .any(|e| e.kind == out_kind::SUBMIT && e.text == "hi"));
}

fn steps(ui: &Ui) -> Vec<PaintStep> {
    paint_plan(&ui.host, &ui.layouts, &placed(ui), Size::new(f(800.0), f(600.0)))
}

fn texts(ui: &Ui) -> Vec<NodeId> {
    steps(ui).iter().filter(|s| s.content == Content::Text).map(|s| s.id).collect()
}

/// Hidden subtrees emit nothing but don't truncate siblings.
#[test]
fn hidden_skips_paint_keeps_siblings() {
    let mut enc = Encoder::new();
    let mut s = Style::default();
    s.size = Extent { width: Dimension::Percent(f(1.0)), height: Dimension::Percent(f(1.0)) };
    enc.style(1, &s);
    enc.create(0, KIND_VIEW);
    enc.set_style(0, 1);
    enc.place(NIL, 0, NIL);
    // The middle node is hidden; "after" must still paint — a hidden
    // node must not truncate its sibling chain.
    for (id, text) in [(2u32, "before"), (3, "hidden"), (4, "after")] {
        enc.create(id, KIND_TEXT);
        enc.set_text(id, text);
        enc.text_props(id, f(20.0), 0xFFFF_FFFF);
        if id == 3 {
            enc.hidden(id, true);
        }
        enc.place(0, id, NIL);
    }
    let buf = enc.finish(1);
    let mut ui = Ui::new(f(1.0));
    ui.apply(&buf).unwrap();
    ui.layouts.set_final(NodeId(0), boxed(0.0, 0.0, 800.0, 600.0, 0.0));
    for id in 2..5u32 {
        ui.layouts.set_final(NodeId(id), boxed(60.0 * id as f32, 0.0, 50.0, 24.0, 0.0));
    }
    assert_eq!(texts(&ui), vec![NodeId(2), NodeId(4)]);

    let mut enc = Encoder::new();
    enc.hidden(3, false);
    let buf = enc.finish(2);
    ui.apply(&buf).unwrap();
    assert_eq!(texts(&ui), vec![NodeId(2), NodeId(3), NodeId(4)]);
}

/// `display: none` must remove the subtree from layout AND paint —
/// the flag path and the style path are equivalent.
#[test]
fn display_none_skips_subtree() {
    let mut enc = Encoder::new();
    let mut s = Style::default();
    s.flex_direction = FlexDirection::Column;
    enc.style(1, &s);
    let mut gone = Style::default();
    gone.display = Display::Gone;
    enc.style(2, &gone);

    enc.create(0, KIND_VIEW);
    enc.set_style(0, 1);
    enc.place(NIL, 0, NIL);
    // Hidden-by-style container with a text child.
    enc.create(1, KIND_VIEW);
    enc.set_style(1, 2);
    enc.place(0, 1, NIL);
    enc.create(2, KIND_TEXT);
    enc.set_text(2, "invisible");
    enc.place(1, 2, NIL);
    // Sibling still paints.
    enc.create(3, KIND_TEXT);
    enc.set_text(3, "visible");
    enc.place(0, 3, NIL);
    let buf = enc.finish(1);

    let mut ui = Ui::new(f(1.0));
    ui.apply(&buf).unwrap();
    for id in 0..4u32 {
        ui.layouts.set_final(NodeId(id), boxed(0.0, 0.0, 100.0, 20.0, 0.0));
    }
    assert_eq!(texts(&ui), vec![NodeId(3)]);
    assert_eq!(hit(&ui, 5.0, 5.0), Some(NodeId(3)));
}

/// A custom node with no registered painter paints nothing but its
/// background and does not stall the paint pass.
#[test]
fn custom_without_painter_paints_background() {
    let mut enc = Encoder::new();
    enc.style(1, &fixed(50.0, 50.0));
    enc.create(0, KIND_CUSTOM);
    enc.set_style(0, 1);
    enc.paint(0, Some(0x1122_3344), None, None);
    enc.custom(0, 99, Payload(f(0.0), f(0.0), f(0.0), f(0.0)), "");
    enc.place(NIL, 0, NIL);
    let buf = enc.finish(1);

    let mut ui = Ui::new(f(1.0));
    ui.apply(&buf).unwrap();
    ui.layouts.set_final(NodeId(0), boxed(0.0, 0.0, 50.0, 50.0, 0.0));
    assert!(steps(&ui)
        .iter()
        .any(|s| s.background.map(|b| b.color) == Some(0x1122_3344)));
    assert_eq!(ui.custom_data(NodeId(0)).unwrap().tag, 99);
}

fn find(tree: &A11yTree, id: u32) -> &A11yNode {
    tree.nodes.iter().find(|n| n.id == aid(NodeId(id))).unwrap()
}

/// The retained tree projects onto a semantic tree: roles, names,
/// values and focus all come from host state.
#[test]
fn a11y_tree_maps_roles_names_focus() {
    let mut enc = Encoder::new();
    let mut s = Style::default();
    s.flex_direction = FlexDirection::Column;
    s.size = Extent { width: Dimension::Percent(f(1.0)), height: Dimension::Percent(f(1.0)) };
    enc.style(1, &s);
    enc.create(0, KIND_VIEW);
    enc.set_style(0, 1);
    enc.place(NIL, 0, NIL);
    enc.label(0, "root container");
    enc.create(1, KIND_TEXT);
    enc.set_text(1, "hello");
    enc.text_props(1, f(14.0), 0xFFFF_FFFF);
    enc.place(0, 1, NIL);
    enc.create(2, KIND_INPUT);
    enc.input_props(2, f(14.0), 0xFFFF_FFFF, "type here", false);
    enc.place(0, 2, NIL);
    let buf = enc.finish(1);

    let mut ui = Ui::new(f(1.0));
    ui.apply(&buf).unwrap();
    let values = vec![None, None, Some(String::new())];
    let tree = ui.a11y_tree(&values);

    assert_eq!(find(&tree, 0).role, A11yRole::GenericContainer);
    assert_eq!(find(&tree, 0).label.as_deref(), Some("root container"));
    assert_eq!(find(&tree, 1).role, A11yRole::Label);
    assert_eq!(find(&tree, 1).value.as_deref(), Some("hello"));
    let input = find(&tree, 2);
    assert_eq!(input.role, A11yRole::TextInput);
    assert_eq!(input.placeholder.as_deref(), Some("type here"));
    assert!(input.actions.contains(&A11yAction::Focus));
    assert!(input.actions.contains(&A11yAction::ReplaceSelectedText));

    // Focus action moves native focus.
    let out = ui.a11y_action(aid(NodeId(2)), &A11yRequest::Focus);
    assert_eq!(out, A11yOutcome::Done);
    assert_eq!(ui.focused(), Some(NodeId(2)));
    let tree = ui.a11y_tree(&values);
    assert_eq!(tree.focus, aid(NodeId(2)));
}

/// An assistive-tech Click runs the real pointer path — listeners
/// see a down/up pair at the node's center.
#[test]
fn a11y_click_synthesizes_pointer() {
    let mut enc = Encoder::new();
    enc.style(1, &fixed(50.0, 50.0));
    enc.create(0, KIND_VIEW);
    enc.set_style(0, 1);
    enc.props(0, mask::POINTER_DOWN | mask::POINTER_UP, false);
    enc.place(NIL, 0, NIL);
    let buf = enc.finish(1);

    let mut ui = Ui::new(f(1.0));
    ui.apply(&buf).unwrap();
    ui.layouts.set_final(NodeId(0), boxed(0.0, 0.0, 50.0, 50.0, 0.0));
    match ui.a11y_action(aid(NodeId(0)), &A11yRequest::Click) {
        A11yOutcome::Tap(id) => {
            let e = placed(&ui)[id.0 as usize].border;
            let (x, y) = ((g(e.x0) + g(e.x1)) / 2.0, (g(e.y0) + g(e.y1)) / 2.0);
            dispatch(&mut ui, press(x, y));
            dispatch(
                &mut ui,
                Event::PointerUp { x: f(x), y: f(y), button: Button::Primary },
            );
        }
        _ => panic!("a click taps"),
    }
    let kinds: Vec<u8> = ui.take_events().iter().map(|e| e.kind).collect();
    assert!(kinds.contains(&out_kind::POINTER_DOWN));
    assert!(kinds.contains(&out_kind::POINTER_UP));
}

/// ScrollIntoView walks ancestors and clamps offsets so the target
/// lands inside the container's clip box.
#[test]
fn a11y_scroll_into_view() {
    let mut enc = Encoder::new();
    enc.style(1, &scrolling(fixed(100.0, 100.0)));
    enc.style(2, &fixed(100.0, 1000.0));
    enc.style(3, &fixed(50.0, 50.0));
    enc.create(0, KIND_VIEW);
    enc.set_style(0, 1);
    enc.place(NIL, 0, NIL);
    enc.create(1, KIND_VIEW);
    enc.set_style(1, 2);
    enc.place(0, 1, NIL);
    enc.create(2, KIND_VIEW);
    enc.set_style(2, 3);
    enc.place(1, 2, NIL);
    let buf = enc.finish(1);

    let mut ui = Ui::new(f(1.0));
    ui.apply(&buf).unwrap();
    ui.layouts.set_final(NodeId(0), boxed(0.0, 0.0, 100.0, 100.0, 900.0));
    ui.layouts.set_final(NodeId(1), boxed(0.0, 0.0, 100.0, 1000.0, 0.0));
    ui.layouts.set_final(NodeId(2), boxed(0.0, 900.0, 50.0, 50.0, 0.0));
    assert_eq!(origin(&ui, NodeId(2)).1, 900.0);

    let id = match ui.a11y_action(aid(NodeId(2)), &A11yRequest::ScrollIntoView) {
        A11yOutcome::Reveal(id) => id,
        _ => panic!("the node is brought into view"),
    };
    assert_eq!(ui.scroll_ancestors(id), vec![NodeId(0)]);
    let at = placed(&ui);
    let (r, view) = (at[2].border, at[0].pad);
    let (sx, sy) = bring_into(r, view, true, true);
    assert_eq!((sx, sy), (Shift::Stay, Shift::Forward));
    let off = ui.scroll_offset(NodeId(0));
    let down = g(off.y) + g(r.y1) - g(view.y1);
    assert!(ui.scroll_to(NodeId(0), off.x, f(down)).is_some());
    // Node's bottom (950) must land at the container's bottom (100).
    assert_eq!(origin(&ui, NodeId(2)).1, 50.0);
}

// ------------------------------------------------------------------ further

#[test]
fn spans_are_brought_in_from_both_sides() {
    let view = Edges { x0: f(0.0), y0: f(0.0), x1: f(100.0), y1: f(100.0) };
    let above = Edges { x0: f(-5.0), y0: f(-20.0), x1: f(5.0), y1: f(-10.0) };
    assert_eq!(bring_into(above, view, true, true), (Shift::Back, Shift::Back));
    assert_eq!(bring_into(above, view, false, true), (Shift::Stay, Shift::Back));
    let inside = Edges { x0: f(5.0), y0: f(5.0), x1: f(9.0), y1: f(9.0) };
    assert_eq!(bring_into(inside, view, true, true), (Shift::Stay, Shift::Stay));
}

#[test]
fn scroll_requests_step_by_the_height() {
    let (mut ui, container, _) = scroll_ui();
    assert_eq!(
        ui.a11y_action(aid(container), &A11yRequest::ScrollDown),
        A11yOutcome::ScrollBy(container, f(0.0), f(100.0))
    );
    assert_eq!(
        ui.a11y_action(aid(container), &A11yRequest::ScrollUp),
        A11yOutcome::ScrollBy(container, f(0.0), f(-100.0))
    );
    ui.layouts.set_final(container, boxed(0.0, 0.0, 0.0, 0.0, 200.0));
    assert_eq!(g(ui.page_step(container)), 48.0);
    assert_eq!(
        ui.a11y_action(aid(container), &A11yRequest::SetScrollOffset(f(0.0), f(500.0))),
        A11yOutcome::Done
    );
    assert_eq!(g(ui.scroll_offset(container).y), 200.0);
    // A node that is not there is left alone.
    assert_eq!(
        ui.a11y_action(aid(NodeId(70)), &A11yRequest::Click),
        A11yOutcome::Done
    );
    assert_eq!(ui.a11y_action(A11yId(0), &A11yRequest::Click), A11yOutcome::Done);
}

#[test]
fn ids_round_trip_beside_the_window() {
    assert_eq!(aid(NodeId(0)), A11yId(1));
    assert_eq!(nid(aid(NodeId(41))), Some(NodeId(41)));
    assert_eq!(nid(A11yId(0)), None);
}

#[test]
fn scroll_without_the_style_does_nothing() {
    let (mut ui, container, child) = scroll_ui();
    assert_eq!(ui.scroll_to(child, f(0.0), f(9.0)), None);
    assert_eq!(ui.scroll_to(container, f(50.0), f(-3.0)), None);
    assert_eq!(
        ui.scroll_to(container, f(50.0), f(3.0)),
        Some(Point::new(f(0.0), f(3.0)))
    );
    assert_eq!(ui.wheel_target(child), Some(container));
}

#[test]
fn listeners_hear_enter_move_and_leave() {
    let (mut ui, _, child) = scroll_ui();
    let mut enc = Encoder::new();
    enc.props(child.0, mask::POINTER_ENTER_LEAVE | mask::POINTER_MOVE, false);
    ui.apply(&enc.finish(2)).unwrap();
    dispatch(&mut ui, Event::PointerMove { x: f(5.0), y: f(7.0) });
    let events = ui.take_events();
    let kinds: Vec<u8> = events.iter().map(|e| e.kind).collect();
    assert_eq!(kinds, vec![out_kind::POINTER_ENTER, out_kind::POINTER_MOVE]);
    assert_eq!((g(events[1].x), g(events[1].y)), (5.0, 7.0));
    dispatch(&mut ui, Event::PointerMove { x: f(500.0), y: f(7.0) });
    let kinds: Vec<u8> = ui.take_events().iter().map(|e| e.kind).collect();
    assert_eq!(kinds, vec![out_kind::POINTER_LEAVE]);
}

#[test]
fn commands_focus_blur_and_scroll() {
    let (mut ui, container, child) = scroll_ui();
    let mut enc = Encoder::new();
    enc.props(child.0, mask::FOCUS, true);
    enc.command(child.0, Command::Focus);
    enc.command(container.0, Command::ScrollTo(f(0.0), f(30.0)));
    ui.apply(&enc.finish(2)).unwrap();
    assert_eq!(ui.focused(), Some(child));
    assert_eq!(g(ui.scroll_offset(container).y), 30.0);
    assert!(!ui.ime_wanted());
    let mut enc = Encoder::new();
    enc.command(child.0, Command::Blur);
    ui.apply(&enc.finish(3)).unwrap();
    assert_eq!(ui.focused(), None);
    assert_eq!(ui.seq, 3);
}

#[test]
fn a_removed_node_loses_the_focus() {
    let (mut ui, _, child) = scroll_ui();
    ui.set_focus(Some(child));
    assert_eq!(ui.focused(), Some(child));
    let mut enc = Encoder::new();
    enc.label(child.0, "old");
    enc.remove(child.0);
    enc.create(child.0, KIND_VIEW);
    ui.apply(&enc.finish(2)).unwrap();
    assert_eq!(ui.focused(), None);
    assert_eq!(ui.a11y_label(child), None);
}

#[test]
fn a_refused_commit_keeps_the_state() {
    let (mut ui, _, child) = scroll_ui();
    let _ = ui.take_a11y_stale();
    let mut enc = Encoder::new();
    enc.label(child.0, "new");
    enc.remove(77);
    enc.place(55, child.0, NIL);
    assert!(ui.apply(&enc.finish(9)).is_err());
    assert_eq!(ui.a11y_label(child), None);
    assert_eq!(ui.seq, 1);
    assert!(!ui.take_a11y_stale());
}

#[test]
fn set_input_text_queues_a_job() {
    let mut ui = input_ui();
    let mut ed = Editor { text: String::new(), generation: 0 };
    run_jobs(&mut ui, &mut ed);
    let _ = ui.take_events();
    let mut enc = Encoder::new();
    enc.command(0, Command::SetInputText("given"));
    ui.apply(&enc.finish(2)).unwrap();
    run_jobs(&mut ui, &mut ed);
    assert_eq!(ed.text, "given");
}

#[test]
fn inputs_show_selection_caret_and_placeholder() {
    let mut ui = input_ui();
    let shown = input_paint(&ui.inputs, 0, true, true).unwrap();
    assert_eq!(shown.selection, Some(SELECTION_COLOR));
    assert_eq!(shown.caret, Some(0xFFFF_FFFF));
    assert_eq!(shown.placeholder, None);
    let mut enc = Encoder::new();
    enc.input_props(0, f(16.0), 0x1020_30FF, "hint", false);
    ui.apply(&enc.finish(2)).unwrap();
    let hinted = input_paint(&ui.inputs, 0, false, true).unwrap();
    assert_eq!(hinted.placeholder, Some(0x1020_307F));
    assert_eq!((hinted.selection, hinted.caret), (None, None));
    assert_eq!(input_paint(&ui.inputs, 0, false, false).unwrap().placeholder, None);
    assert!(input_paint(&ui.inputs, 5, false, false).is_none());
}

#[test]
fn culling_skips_only_the_node_itself() {
    let (mut ui, container, child) = scroll_ui();
    ui.host.set_view_paint(container, 0xFF);
    ui.host.set_view_paint(child, 0xFF);
    ui.layouts.set_final(container, boxed(-200.0, 0.0, 100.0, 100.0, 0.0));
    ui.layouts.set_final(child, boxed(200.0, 0.0, 100.0, 100.0, 0.0));
    let ids: Vec<NodeId> = steps(&ui).iter().map(|s| s.id).collect();
    assert_eq!(ids, vec![child]);
    let clip = steps(&ui)[0].clip.unwrap();
    assert_eq!((g(clip.bounds.x0), g(clip.bounds.x1)), (-200.0, -100.0));
}

#[test]
fn clips_intersect_and_keep_the_tighter_radius() {
    let outer = Clip {
        bounds: Edges { x0: f(0.0), y0: f(0.0), x1: f(100.0), y1: f(100.0) },
        radius: f(9.0),
    };
    let inner = Edges { x0: f(10.0), y0: f(10.0), x1: f(200.0), y1: f(20.0) };
    let c = outer.intersect(inner, f(4.0));
    assert_eq!((g(c.bounds.x0), g(c.bounds.x1)), (10.0, 100.0));
    assert_eq!((g(c.bounds.y0), g(c.bounds.y1)), (10.0, 20.0));
    assert_eq!(g(c.radius), 4.0);
    // The old clip is the tighter box: its radius stays.
    let small = Clip {
        bounds: Edges { x0: f(0.0), y0: f(0.0), x1: f(10.0), y1: f(10.0) },
        radius: f(4.0),
    };
    let large = Edges { x0: f(-5.0), y0: f(-5.0), x1: f(95.0), y1: f(95.0) };
    assert_eq!(small.intersect(large, f(8.0)), small);
    // A box inside the clip owns its corners.
    let inside = Edges { x0: f(1.0), y0: f(1.0), x1: f(9.0), y1: f(9.0) };
    assert_eq!(small.intersect(inside, f(6.0)), Clip { bounds: inside, radius: f(6.0) });
}

#[test]
fn children_paint_after_their_parents() {
    let (mut ui, container, child) = scroll_ui();
    ui.host.set_view_paint(container, 0x11FF);
    ui.host.set_view_paint(child, 0x22FF);
    let order: Vec<u32> = steps(&ui).iter().filter_map(|s| s.background).map(|b| b.color).collect();
    assert_eq!(order, vec![0x11FF, 0x22FF]);
    assert_eq!(NodeKind(NodeKind::VIEW), ui.host.node(child).unwrap().kind());
    assert_eq!(ui.host.children(NodeId(ROOT)), [container]);
    assert_eq!(Color(0x22FF).alpha(), 255);
}
