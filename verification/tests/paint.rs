use craie::geom::{Point, RectPx};
use craie::host::{Host, NodeId, NodeKind, ROOT};
use craie::layout::pass::{input_width, INPUT_WIDTH, UNWRAPPED};
use craie::layout::{LayoutPath, Layouts, MeasurePlan, Space};
use craie::scalar::{Scalar, NAN_BITS};
use craie::scene::{recolor, stamp_clip, wrap_is_stale, Color, EmittedText, Instance};
use craie::style::{Display, Style};

fn f(x: f32) -> Scalar {
    Scalar(x.to_bits())
}

fn at(x: f32, y: f32) -> Point {
    Point::new(f(x), f(y))
}

#[test]
fn numbers_compare_as_floats_do() {
    let all = [
        f32::NEG_INFINITY,
        f32::MIN,
        -1.5,
        -0.0,
        0.0,
        f32::MIN_POSITIVE,
        1.0,
        f32::MAX,
        f32::INFINITY,
        f32::NAN,
    ];
    for a in all {
        for b in all {
            assert_eq!(f(a).lt(f(b)), a < b);
            assert_eq!(f(a).le(f(b)), a <= b);
            assert_eq!(f(a).same(f(b)), a == b);
            let (hi, lo) = (a.max(b), a.min(b));
            assert!(f(a).max(f(b)).same(f(hi)) || (hi.is_nan() && f(a).max(f(b)).is_nan()));
            assert!(f(a).min(f(b)).same(f(lo)) || (lo.is_nan() && f(a).min(f(b)).is_nan()));
        }
        assert_eq!(f(a).is_nan(), a.is_nan());
        assert_eq!(f(a).is_positive(), a > 0.0);
        assert_eq!(f(a).neg().0, (-a).to_bits());
        if !a.is_nan() {
            assert!(f(a).clamp(f(-2.0), f(3.0)).same(f(a.clamp(-2.0, 3.0))));
        }
    }
    assert!(Scalar(NAN_BITS).is_nan());
}

#[test]
fn unions_cover_both() {
    let mut r = RectPx::new(5, 6, 7, 8);
    r.union(RectPx::new(1, 7, 6, 20));
    assert_eq!(r, RectPx::new(1, 6, 7, 20));
}

#[test]
fn colors_pack_their_channels() {
    assert_eq!(Color::rgba(0x11, 0x22, 0x33, 0x44), Color(0x1122_3344));
    assert_eq!(Color::rgb(0x11, 0x22, 0x33), Color(0x1122_33FF));
    assert_eq!(Color(0x1122_3344).alpha(), 0x44);
    assert_eq!(Color(0x1122_3345).half_alpha(), Color(0x1122_3322));
    assert_eq!(Color(Color::WHITE), Color::rgba(255, 255, 255, 255));
    assert_eq!(Color(Color::BLACK), Color::rgba(0, 0, 0, 255));
}

fn quad(color: u32) -> Instance {
    Instance::quad(f(1.0), f(2.0), f(3.0), f(4.0), color)
}

#[test]
fn rects_carry_their_border() {
    let q = quad(0xFF);
    assert_eq!(q.flags, Instance::FLAG_SOLID);
    assert_eq!(f32::from_bits(q.clip_min.x.0), f32::MIN);
    assert_eq!(f32::from_bits(q.clip_max.y.0), f32::MAX);
    let plain = Instance::rect(f(0.0), f(0.0), f(1.0), f(1.0), 1, f(2.0), f(0.0), 0xFF);
    assert_eq!(plain.flags, Instance::FLAG_SOLID);
    let bordered = Instance::rect(f(0.0), f(0.0), f(1.0), f(1.0), 1, f(2.0), f(1.0), 0xFF);
    assert_eq!(bordered.flags, Instance::FLAG_SOLID | Instance::FLAG_BORDER);
    assert_eq!(bordered.aux_color, 0xFF);
    let clear = Instance::rect(f(0.0), f(0.0), f(1.0), f(1.0), 1, f(2.0), f(1.0), 0xFF00);
    assert_eq!(clear.flags, Instance::FLAG_SOLID);
}

#[test]
fn clips_are_stamped_from_a_start() {
    let mut items = vec![quad(1), quad(2)];
    stamp_clip(&mut items, 1, at(0.0, 0.0), at(9.0, 9.0), f(2.0), true);
    assert_eq!(items[0].clip_max.x, Scalar(f32::MAX.to_bits()));
    assert_eq!(items[1].clip_max, at(9.0, 9.0));
    assert_eq!(items[1].clip_radius, f(2.0));
    assert_eq!(items[1].flags, Instance::FLAG_SOLID | Instance::FLAG_ROUND_CLIP);
}

#[test]
fn color_bitmaps_keep_their_color() {
    let mut items = vec![quad(1), quad(2)];
    items[1].flags = Instance::FLAG_COLOR;
    recolor(&mut items, 7);
    assert_eq!((items[0].color, items[1].color), (7, 2));
}

#[test]
fn kept_text_is_replayed_while_it_serves() {
    let items = vec![quad(1), quad(2), quad(2)];
    let one = 1f32.to_bits();
    let mut kept = EmittedText::retain(&items, 1, one, at(5.0, 6.0), 2);
    assert_eq!(kept.instances.len(), 2);
    let mut out = vec![quad(9)];
    assert!(kept.replay(one, at(5.0, 6.0), 2, &mut out));
    assert_eq!(out.len(), 3);
    assert_eq!(out[1].color, 2);
    // Another color is written into the kept rows.
    assert!(kept.replay(one, at(5.0, 6.0), 3, &mut out));
    assert_eq!(out.len(), 5);
    assert_eq!((out[4].color, kept.color), (3, 3));
    assert!(!kept.replay(2f32.to_bits(), at(5.0, 6.0), 3, &mut out));
    assert!(!kept.replay(one, at(5.5, 6.0), 3, &mut out));
    assert_eq!(out.len(), 5);
    assert!(wrap_is_stale(None, f(10.0)));
    assert!(wrap_is_stale(Some(UNWRAPPED), f(10.0)));
    assert!(!wrap_is_stale(Some(10f32.to_bits()), f(10.0)));
}

fn text_host() -> Host {
    let mut host = Host::new();
    host.create(NodeId(0), NodeKind(NodeKind::VIEW)).unwrap();
    host.create(NodeId(1), NodeKind(NodeKind::TEXT)).unwrap();
    host.create(NodeId(2), NodeKind(NodeKind::INPUT)).unwrap();
    host.append_child(NodeId(ROOT), NodeId(0));
    host.append_child(NodeId(0), NodeId(1));
    host.append_child(NodeId(0), NodeId(2));
    host.set_text(NodeId(1), "words");
    host
}

#[test]
fn layout_takes_the_path_of_the_node() {
    let mut host = text_host();
    let mut layouts = Layouts::new();
    assert_eq!(layouts.path_of(&host, NodeId(0)), LayoutPath::Container);
    assert_eq!(layouts.path_of(&host, NodeId(1)), LayoutPath::Leaf);
    host.set_hidden(NodeId(1), true);
    assert_eq!(layouts.path_of(&host, NodeId(1)), LayoutPath::Hidden);
    let mut gone = Style::default();
    gone.display = Display::Gone;
    layouts.define_style(0, gone);
    host.set_style(NodeId(0), 0);
    assert!(layouts.is_suppressed(&host, NodeId(0)));
    assert_eq!(layouts.path_of(&host, NodeId(0)), LayoutPath::Hidden);
}

#[test]
fn measuring_reuses_what_fits() {
    let mut host = text_host();
    let wide = Space::Definite(f(300.0));
    assert_eq!(host.measure(NodeId(1), true, wide, None), MeasurePlan::Known);
    assert_eq!(host.measure(NodeId(0), false, wide, None), MeasurePlan::Nothing);
    let first = host.measure(NodeId(1), false, wide, None);
    assert_eq!(first, MeasurePlan::Shape { wrap: Some(f(300.0)) });
    host.text_measured(NodeId(1));
    assert_eq!(
        host.measure(NodeId(1), false, wide, Some(300f32.to_bits())),
        MeasurePlan::Retained
    );
    assert_eq!(
        host.measure(NodeId(1), false, wide, Some(200f32.to_bits())),
        MeasurePlan::Shape { wrap: Some(f(300.0)) }
    );
    host.set_text(NodeId(1), "other words");
    assert_eq!(
        host.measure(NodeId(1), false, wide, Some(300f32.to_bits())),
        MeasurePlan::Shape { wrap: Some(f(300.0)) }
    );
    assert_eq!(
        host.measure(NodeId(2), false, Space::MaxContent, None),
        MeasurePlan::Input { width: Scalar(INPUT_WIDTH) }
    );
    assert_eq!(INPUT_WIDTH, 160f32.to_bits());
    assert_eq!(input_width(f(10.0), f(160.0)), f(160.0));
}
