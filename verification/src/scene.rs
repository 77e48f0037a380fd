//! Compact paint representation: flat rows in strict document order, so that
//! painter ordering is vector order and a frame draws in one call.

use crate::geom::{Point, Size};
use crate::scalar::{Scalar, MAX_BITS, MIN_BITS};
use vstd::prelude::*;

verus! {

/// sRGB color packed as 0xRRGGBBAA.
#[derive(Clone, Copy, Debug, PartialEq, Eq, Structural)]
pub struct Color(pub u32);

impl Color {
    pub const WHITE: u32 = 0xFFFF_FFFF;

    pub const BLACK: u32 = 0x0000_00FF;

    pub const TRANSPARENT: u32 = 0;

    pub open spec fn packed(r: u8, g: u8, b: u8, a: u8) -> Color {
        Color((0x100_0000 * r + 0x1_0000 * g + 0x100 * b + a) as u32)
    }

    pub open spec fn alpha_of(self) -> int {
        self.0 as int % 256
    }

    /// The color with half its alpha, rounded down.
    pub open spec fn faded(self) -> Color {
        Color((self.0 - self.alpha_of() + self.alpha_of() / 2) as u32)
    }

    pub fn rgba(r: u8, g: u8, b: u8, a: u8) -> (c: Color)
        ensures
            c == Color::packed(r, g, b, a),
    {
        Color(0x100_0000 * r as u32 + 0x1_0000 * g as u32 + 0x100 * b as u32 + a as u32)
    }

    pub fn rgb(r: u8, g: u8, b: u8) -> (c: Color)
        ensures
            c == Color::packed(r, g, b, 255),
    {
        Color::rgba(r, g, b, 255)
    }

    pub fn alpha(self) -> (a: u8)
        ensures
            a == self.alpha_of(),
    {
        (self.0 % 256) as u8
    }

    /// The color of a placeholder: half the text's alpha.
    pub fn half_alpha(self) -> (c: Color)
        ensures
            c == self.faded(),
    {
        let a: u32 = self.0 % 256;
        Color(self.0 - a + a / 2)
    }
}

/// A packed color gives its channels back, and fading keeps all but alpha.
pub proof fn law_color_channels(r: u8, g: u8, b: u8, a: u8)
    ensures
        ({
            let c = Color::packed(r, g, b, a);
            &&& c.alpha_of() == a
            &&& c.0 / 0x100_0000 == r
            &&& c.0 / 0x1_0000 % 256 == g
            &&& c.0 / 0x100 % 256 == b
            &&& c.faded() == Color::packed(r, g, b, (a / 2) as u8)
        }),
{
    let c = Color::packed(r, g, b, a).0;
    let low: int = a as int;
    let mid: int = 0x100 * b + low;
    let high: int = 0x1_0000 * g + mid;
    assert(c == 0x100_0000 * r + high);
    assert(0 <= high < 0x100_0000 && 0 <= mid < 0x1_0000);
    assert(c / 0x100_0000 == r);
    assert(c / 0x1_0000 == 0x100 * r + g);
    assert(c / 0x100 == 0x1_0000 * r + 0x100 * g + b);
    assert(c % 256 == a);
}

/// One drawable instance in physical pixels: a filled or bordered rectangle,
/// or a glyph from the atlas.
///
/// Every instance carries a clip rectangle; with `FLAG_ROUND_CLIP` its
/// corners have `clip_radius`. For a solid rectangle `radius` and `border_w`
/// shape it, and `aux_color` is the border color.
#[derive(Clone, Copy, Debug, PartialEq, Eq, Structural)]
pub struct Instance {
    pub position: Point,
    pub size: Size,
    pub uv_min: Point,
    pub uv_max: Point,
    pub clip_min: Point,
    pub clip_max: Point,
    pub color: u32,
    pub aux_color: u32,
    pub radius: Scalar,
    pub border_w: Scalar,
    pub clip_radius: Scalar,
    pub page: u16,
    pub flags: u16,
}

/// True where a border shows: it has width, and its color is not clear.
pub open spec fn bordered(border_w: Scalar, border_color: u32) -> bool {
    border_w.positive() && Color(border_color).alpha_of() != 0
}

impl Instance {
    pub const FLAG_COLOR: u16 = 1;

    pub const FLAG_SOLID: u16 = 2;

    /// The clip rectangle has rounded corners.
    pub const FLAG_ROUND_CLIP: u16 = 4;

    /// The rectangle carries a border ring.
    pub const FLAG_BORDER: u16 = 8;

    pub open spec fn filled(x: Scalar, y: Scalar, w: Scalar, h: Scalar, color: u32) -> Instance {
        let lo = Scalar(MIN_BITS);
        let hi = Scalar(MAX_BITS);
        Instance {
            position: Point { x, y },
            size: Size { width: w, height: h },
            uv_min: Point::zero(),
            uv_max: Point::zero(),
            clip_min: Point { x: lo, y: lo },
            clip_max: Point { x: hi, y: hi },
            color,
            aux_color: 0,
            radius: Scalar(0),
            border_w: Scalar(0),
            clip_radius: Scalar(0),
            page: 0,
            flags: Instance::FLAG_SOLID,
        }
    }

    pub open spec fn ringed(
        x: Scalar,
        y: Scalar,
        w: Scalar,
        h: Scalar,
        fill: u32,
        radius: Scalar,
        border_w: Scalar,
        border_color: u32,
    ) -> Instance {
        Instance {
            radius,
            border_w,
            aux_color: border_color,
            flags: if bordered(border_w, border_color) {
                10
            } else {
                Instance::FLAG_SOLID
            },
            ..Instance::filled(x, y, w, h, fill)
        }
    }

    /// A solid rectangle, unclipped and without a border.
    pub fn quad(x: Scalar, y: Scalar, w: Scalar, h: Scalar, color: u32) -> (r: Instance)
        ensures
            r == Instance::filled(x, y, w, h, color),
    {
        let zero: Point = Point::new(Scalar(0), Scalar(0));
        let lo: Scalar = Scalar(MIN_BITS);
        let hi: Scalar = Scalar(MAX_BITS);
        Instance {
            position: Point::new(x, y),
            size: Size::new(w, h),
            uv_min: zero,
            uv_max: zero,
            clip_min: Point::new(lo, lo),
            clip_max: Point::new(hi, hi),
            color,
            aux_color: 0,
            radius: Scalar(0),
            border_w: Scalar(0),
            clip_radius: Scalar(0),
            page: 0,
            flags: Instance::FLAG_SOLID,
        }
    }

    /// A filled rectangle with corner radius and border, in physical pixels.
    pub fn rect(
        x: Scalar,
        y: Scalar,
        w: Scalar,
        h: Scalar,
        fill: u32,
        radius: Scalar,
        border_w: Scalar,
        border_color: u32,
    ) -> (r: Instance)
        ensures
            r == Instance::ringed(x, y, w, h, fill, radius, border_w, border_color),
    {
        let mut inst: Instance = Instance::quad(x, y, w, h, fill);
        inst.radius = radius;
        inst.border_w = border_w;
        inst.aux_color = border_color;
        if border_w.is_positive() && border_color % 256 != 0 {
            inst.flags = Instance::FLAG_SOLID + Instance::FLAG_BORDER;
        }
        inst
    }

    /// An instance with a clip stamped on it.
    pub open spec fn clipped(self, min: Point, max: Point, radius: Scalar, rounded: bool) -> Instance {
        Instance {
            clip_min: min,
            clip_max: max,
            clip_radius: radius,
            flags: if rounded {
                self.flags | Instance::FLAG_ROUND_CLIP
            } else {
                self.flags
            },
            ..self
        }
    }

    /// An instance with its color replaced, unless it is a color bitmap.
    pub open spec fn recolored(self, color: u32) -> Instance {
        if self.flags & Instance::FLAG_COLOR == 0 {
            Instance { color, ..self }
        } else {
            self
        }
    }
}

/// Rows with a clip stamped on those from `start` on.
pub open spec fn stamped(
    items: Seq<Instance>,
    start: int,
    min: Point,
    max: Point,
    radius: Scalar,
    rounded: bool,
) -> Seq<Instance> {
    Seq::new(
        items.len(),
        |i: int|
            if i < start {
                items[i]
            } else {
                items[i].clipped(min, max, radius, rounded)
            },
    )
}

/// Stamps a clip, in physical pixels, on the instances from `start` on.
/// `rounded` says whether its corners are.
pub fn stamp_clip(
    items: &mut Vec<Instance>,
    start: usize,
    min: Point,
    max: Point,
    radius: Scalar,
    rounded: bool,
)
    requires
        start <= old(items)@.len(),
    ensures
        final(items)@ == stamped(old(items)@, start as int, min, max, radius, rounded),
{
    let mut i: usize = start;
    while i < items.len()
        invariant
            start <= i <= items@.len(),
            items@.len() == old(items)@.len(),
            forall|k: int|
                0 <= k < items@.len() ==> #[trigger] items@[k] == (if start <= k < i {
                    old(items)@[k].clipped(min, max, radius, rounded)
                } else {
                    old(items)@[k]
                }),
        decreases items@.len() - i,
    {
        let mut inst: Instance = items[i];
        inst.clip_min = min;
        inst.clip_max = max;
        inst.clip_radius = radius;
        if rounded {
            inst.flags = inst.flags | Instance::FLAG_ROUND_CLIP;
        }
        items.set(i, inst);
        i = i + 1;
    }
    proof {
        assert(items@ =~= stamped(old(items)@, start as int, min, max, radius, rounded));
    }
}

/// Rewrites the color of every instance that is not a color bitmap.
pub fn recolor(items: &mut Vec<Instance>, color: u32)
    ensures
        final(items)@.len() == old(items)@.len(),
        forall|i: int|
            0 <= i < old(items)@.len() ==> #[trigger] final(items)@[i]
                == old(items)@[i].recolored(color),
{
    let mut i: usize = 0;
    while i < items.len()
        invariant
            i <= items@.len(),
            items@.len() == old(items)@.len(),
            forall|k: int|
                0 <= k < items@.len() ==> #[trigger] items@[k] == (if k < i {
                    old(items)@[k].recolored(color)
                } else {
                    old(items)@[k]
                }),
        decreases items@.len() - i,
    {
        let mut inst: Instance = items[i];
        if inst.flags & Instance::FLAG_COLOR == 0 {
            inst.color = color;
            items.set(i, inst);
        }
        i = i + 1;
    }
}

/// A frame: what the surface is cleared to, and its rows in paint order.
#[derive(Debug)]
pub struct Scene {
    pub clear: Option<Color>,
    pub items: Vec<Instance>,
}

/// The rows that a text node came to, kept for the next paint: valid while
/// scale and origin stay, and recolored in place.
#[derive(Debug)]
pub struct EmittedText {
    pub scale_bits: u32,
    /// Logical content-box origin.
    pub origin: Point,
    pub color: u32,
    pub instances: Vec<Instance>,
}

/// Rows with their color replaced.
pub open spec fn all_recolored(items: Seq<Instance>, color: u32) -> Seq<Instance> {
    Seq::new(items.len(), |i: int| items[i].recolored(color))
}

fn append(items: &mut Vec<Instance>, more: &Vec<Instance>, start: usize)
    requires
        start <= more@.len(),
    ensures
        final(items)@ == old(items)@ + more@.skip(start as int),
{
    let ghost before = items@;
    let mut i: usize = start;
    proof {
        assert(before + more@.subrange(start as int, start as int) =~= before);
    }
    while i < more.len()
        invariant
            start <= i <= more@.len(),
            items@ == before + more@.subrange(start as int, i as int),
        decreases more@.len() - i,
    {
        items.push(more[i]);
        proof {
            assert(before + more@.subrange(start as int, i + 1) =~= (before + more@.subrange(
                start as int,
                i as int,
            )).push(more@[i as int]));
        }
        i = i + 1;
    }
    proof {
        assert(more@.subrange(start as int, i as int) =~= more@.skip(start as int));
    }
}

impl EmittedText {
    /// Serves another paint at the same scale and origin.
    pub open spec fn serves(self, scale_bits: u32, origin: Point) -> bool {
        self.scale_bits == scale_bits && self.origin.x.equals(origin.x) && self.origin.y.equals(
            origin.y,
        )
    }

    /// The rows that a repaint in `color` takes.
    pub open spec fn rows(self, color: u32) -> Seq<Instance> {
        if self.color == color {
            self.instances@
        } else {
            all_recolored(self.instances@, color)
        }
    }

    /// Keeps the rows from `start` on for the next paint.
    pub fn retain(
        items: &Vec<Instance>,
        start: usize,
        scale_bits: u32,
        origin: Point,
        color: u32,
    ) -> (r: EmittedText)
        requires
            start <= items@.len(),
        ensures
            r.scale_bits == scale_bits,
            r.origin == origin,
            r.color == color,
            r.instances@ == items@.skip(start as int),
    {
        let mut instances: Vec<Instance> = Vec::new();
        append(&mut instances, items, start);
        proof {
            assert(instances@ =~= items@.skip(start as int));
        }
        EmittedText { scale_bits, origin, color, instances }
    }

    /// Appends the kept rows where they still serve, in the wanted color;
    /// false where the text has to be emitted anew.
    pub fn replay(
        &mut self,
        scale_bits: u32,
        origin: Point,
        color: u32,
        items: &mut Vec<Instance>,
    ) -> (r: bool)
        ensures
            r == old(self).serves(scale_bits, origin),
            r ==> final(items)@ == old(items)@ + old(self).rows(color) && final(self).color
                == color && final(self).instances@ == old(self).rows(color)
                && final(self).scale_bits == old(self).scale_bits && final(self).origin == old(
                self,
            ).origin,
            !r ==> final(items)@ == old(items)@ && *final(self) == *old(self),
    {
        if self.scale_bits != scale_bits || !self.origin.x.same(origin.x) || !self.origin.y.same(
            origin.y,
        ) {
            return false;
        }
        if self.color != color {
            recolor(&mut self.instances, color);
            self.color = color;
            proof {
                assert(self.instances@ =~= old(self).rows(color));
            }
        }
        append(items, &self.instances, 0);
        proof {
            assert(self.instances@.skip(0) =~= self.instances@);
        }
        true
    }
}

/// A kept batch that was recolored serves the next paint in that color as it
/// is: what was appended once is appended again.
pub proof fn law_replay_is_stable(e: EmittedText, again: EmittedText, color: u32)
    requires
        again.color == color,
        again.instances@ == e.rows(color),
    ensures
        again.rows(color) == e.rows(color),
{
}

/// A text layout retained under a wrap key does not fit a content width.
pub open spec fn stale_at(retained: Option<u32>, content_width: Scalar) -> bool {
    retained != Some(content_width.0)
}

/// True where a text layout retained under a wrap key does not fit the final
/// content width.
pub fn wrap_is_stale(retained: Option<u32>, content_width: Scalar) -> (r: bool)
    ensures
        r == stale_at(retained, content_width),
{
    match retained {
        Some(key) => key != content_width.0,
        None => true,
    }
}

/// Recoloring a batch twice is recoloring it once, with the last color.
pub proof fn law_last_recolor_wins(inst: Instance, a: u32, b: u32)
    ensures
        inst.recolored(a).recolored(b) == inst.recolored(b),
{
}

/// A clip is restamped, not joined: the last one counts, but a rounded mark
/// stays.
pub proof fn law_clip_is_restamped(
    inst: Instance,
    a: Point,
    b: Point,
    c: Point,
    d: Point,
    r: Scalar,
    s: Scalar,
)
    ensures
        inst.clipped(a, b, r, false).clipped(c, d, s, true) == inst.clipped(c, d, s, true),
{
}

/// A rectangle is drawn where and as asked: solid, unclipped, with no part of
/// the atlas; it is marked as bordered exactly where the border has width and
/// its color is not clear.
pub proof fn law_rects_are_drawn_as_asked(
    x: Scalar,
    y: Scalar,
    w: Scalar,
    h: Scalar,
    fill: u32,
    radius: Scalar,
    border_w: Scalar,
    border_color: u32,
)
    ensures
        ({
            let r = Instance::ringed(x, y, w, h, fill, radius, border_w, border_color);
            let q = Instance::filled(x, y, w, h, fill);
            &&& r.position.x == x && r.position.y == y && r.size.width == w && r.size.height == h
            &&& r.color == fill && r.aux_color == border_color
            &&& r.radius == radius && r.border_w == border_w
            &&& r.flags == (if Scalar(0).below(border_w) && border_color % 256 != 0 {
                10u16
            } else {
                2u16
            })
            &&& q.position == r.position && q.size == r.size && q.color == fill
            &&& q.aux_color == 0 && q.radius == Scalar(0) && q.border_w == Scalar(0)
            &&& q.flags == 2
            &&& r.uv_min == Point::zero() && r.uv_max == Point::zero() && r.page == 0
            &&& q.uv_min == Point::zero() && q.uv_max == Point::zero() && q.page == 0
            &&& r.clip_radius == Scalar(0) && q.clip_radius == Scalar(0)
            &&& r.clip_min == q.clip_min && r.clip_max == q.clip_max
            &&& q.clip_min.x == Scalar(0xFF7F_FFFF) && q.clip_min.y == Scalar(0xFF7F_FFFF)
            &&& q.clip_max.x == Scalar(0x7F7F_FFFF) && q.clip_max.y == Scalar(0x7F7F_FFFF)
        }),
{
}

/// A stamped clip is carried as it is, and is marked as rounded where it is;
/// the rest of the row, its other marks too, stays.
pub proof fn law_clip_is_carried(
    inst: Instance,
    min: Point,
    max: Point,
    radius: Scalar,
    rounded: bool,
)
    ensures
        ({
            let c = inst.clipped(min, max, radius, rounded);
            &&& c.clip_min == min && c.clip_max == max && c.clip_radius == radius
            &&& rounded ==> c.flags & 4 != 0
            &&& !rounded ==> c.flags == inst.flags
            &&& c.flags & 1 == inst.flags & 1 && c.flags & 2 == inst.flags & 2 && c.flags & 8
                == inst.flags & 8
            &&& c == (Instance {
                clip_min: min,
                clip_max: max,
                clip_radius: radius,
                flags: c.flags,
                ..inst
            })
        }),
{
    let f = inst.flags;
    assert((f | 4u16) & 4u16 != 0 && (f | 4u16) & 1u16 == f & 1u16 && (f | 4u16) & 2u16 == f & 2u16
        && (f | 4u16) & 8u16 == f & 8u16) by (bit_vector);
}

/// A recolored row has the color and is else the same; a color bitmap, marked
/// by its lowest bit, stays as it is.
pub proof fn law_bitmaps_keep_their_color(inst: Instance, color: u32)
    ensures
        inst.flags & 1 == 0 ==> inst.recolored(color) == (Instance { color, ..inst }),
        inst.flags & 1 != 0 ==> inst.recolored(color) == inst,
        Instance::FLAG_COLOR == 1 && Instance::FLAG_SOLID == 2 && Instance::FLAG_ROUND_CLIP == 4
            && Instance::FLAG_BORDER == 8,
        Color::WHITE == 0xFFFF_FFFF && Color::BLACK == 0xFF && Color::TRANSPARENT == 0,
{
}

/// Kept rows serve only where scale and origin are what they were; what they
/// come to has the wanted color, row for row.
pub proof fn law_kept_rows_serve_in_place(e: EmittedText, bits: u32, origin: Point, color: u32)
    ensures
        e.serves(bits, origin) ==> e.scale_bits == bits,
        e.serves(bits, origin) ==> !e.origin.x.below(origin.x) && !origin.x.below(e.origin.x),
        e.serves(bits, origin) ==> !e.origin.y.below(origin.y) && !origin.y.below(e.origin.y),
        e.scale_bits == bits && e.origin == origin && !origin.x.nan() && !origin.y.nan()
            ==> e.serves(bits, origin),
        e.rows(color).len() == e.instances@.len(),
        e.color == color ==> e.rows(color) == e.instances@,
        forall|i: int|
            0 <= i < e.instances@.len() ==> {
                let r = #[trigger] e.rows(color)[i];
                &&& e.color != color && e.instances@[i].flags & 1 == 0 ==> r.color == color
                &&& r == (Instance { color: r.color, ..e.instances@[i] })
            },
{
}

/// A layout serves only the width that it was wrapped at.
pub proof fn law_wraps_go_stale(key: u32, width: Scalar)
    ensures
        stale_at(None, width),
        stale_at(Some(key), width) <==> key != width.0,
{
}

/// A clip is stamped on the rows from a place on, each and no other.
pub proof fn law_clips_are_stamped_from_a_place(
    items: Seq<Instance>,
    start: int,
    min: Point,
    max: Point,
    radius: Scalar,
    rounded: bool,
    i: int,
)
    requires
        0 <= i < items.len(),
    ensures
        ({
            let out = stamped(items, start, min, max, radius, rounded);
            &&& out.len() == items.len()
            &&& i < start ==> out[i] == items[i]
            &&& i >= start ==> out[i].clip_min == min && out[i].clip_max == max
                && out[i].clip_radius == radius && out[i].color == items[i].color
                && out[i].position == items[i].position && out[i].size == items[i].size
            &&& i >= start ==> out[i] == items[i].clipped(min, max, radius, rounded)
        }),
{
}

} // verus!
