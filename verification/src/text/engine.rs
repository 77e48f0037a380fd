//! What a glyph run asks of the cache and the atlas.

use super::atlas::{
    fits, law_light_pages_have_numbers, numbered, written, AtlasModel, AtlasSlot, GlyphAtlas, ATLAS_PAGE_SIZE, MAX_ALPHA_PAGES,
    MAX_COLOR_PAGES,
};
use super::cache::{
    evicted, font_word, quantize_subpixel, same_slot, CacheModel, CacheStats, CachedGlyph,
    CoordsModel, Entry, GlyphCache, GlyphKey,
};
use vstd::prelude::*;

verus! {

/// A rasterized glyph.
#[derive(Debug)]
pub struct Rastered {
    pub width: u32,
    pub height: u32,
    /// Bitmap offset relative to the glyph origin.
    pub left: i32,
    pub top: i32,
    /// True for a color bitmap, four bytes per pixel; else one.
    pub color: bool,
    pub data: Vec<u8>,
}

impl Rastered {
    pub open spec fn bpp(self) -> int {
        if self.color {
            4
        } else {
            1
        }
    }

    /// The data covers the bitmap.
    pub open spec fn covered(self) -> bool {
        &&& self.width <= 0x7FFF_FFFD
        &&& self.height <= 0x7FFF_FFFD
        &&& self.data@.len() >= self.width * self.height * self.bpp()
    }
}

/// The cached form of a glyph without area.
pub open spec fn blank_glyph() -> CachedGlyph {
    CachedGlyph {
        alloc: None,
        page: 0,
        color: false,
        x: 0,
        y: 0,
        w: 0,
        h: 0,
        left: 0,
        top: 0,
    }
}

/// A cache after evictions: what is left is unchanged, and what went could
/// go, and was used no later than anything that can still go.
pub open spec fn thinned(before: CacheModel, after: CacheModel, color: bool) -> bool {
    &&& after == (CacheModel { entries: after.entries, ..before })
    &&& forall|k: u128| #[trigger]
        after.entries.dom().contains(k) ==> before.entries.dom().contains(k) && after.entries[k]
            == before.entries[k]
    &&& forall|k: u128| #[trigger]
        before.entries.dom().contains(k) && !after.entries.dom().contains(k) ==> before.evictable(
            k,
            color,
        )
    &&& forall|k: u128, j: u128|
        #![trigger before.entries.dom().contains(k), after.evictable(j, color)]
        before.entries.dom().contains(k) && !after.entries.dom().contains(k) && after.evictable(
            j,
            color,
        ) ==> before.entries[k].last_used <= before.entries[j].last_used
}

/// A cache and an atlas in which a write is tried.
#[verifier::ext_equal]
pub struct Round {
    pub cache: CacheModel,
    pub atlas: AtlasModel,
}

/// A write of a bitmap was tried and gave a slot, or none.
pub open spec fn tried(
    before: AtlasModel,
    after: AtlasModel,
    r: Rastered,
    slot: Option<AtlasSlot>,
) -> bool {
    written(before, after, r.color, slot, r.width as int, r.height as int, r.data@)
}

/// The write of round `i` was refused, and the oldest entry of the set went
/// before the next round.
pub open spec fn paid(rounds: Seq<Round>, i: int, r: Rastered) -> bool {
    exists|mid: AtlasModel, k: u128|
        #![trigger evicted(
            rounds[i].cache,
            rounds[i + 1].cache,
            mid,
            rounds[i + 1].atlas,
            r.color,
            k,
        )]
        tried(rounds[i].atlas, mid, r, None) && evicted(
            rounds[i].cache,
            rounds[i + 1].cache,
            mid,
            rounds[i + 1].atlas,
            r.color,
            k,
        )
}

/// Rounds of writes, each but the last refused and paid for with one entry.
pub open spec fn paying(rounds: Seq<Round>, r: Rastered) -> bool {
    &&& rounds.len() > 0
    &&& forall|i: int| 0 <= i < rounds.len() - 1 ==> #[trigger] paid(rounds, i, r)
}

/// The slot of a glyph.
pub open spec fn slot_of(out: Option<CachedGlyph>) -> Option<AtlasSlot> {
    match out {
        Some(g) => match g.alloc {
            Some(a) => Some(AtlasSlot { alloc: a, page: g.page, x: g.x, y: g.y }),
            None => None,
        },
        None => None,
    }
}

/// The bitmap of a glyph is on its page.
pub open spec fn stored(m: AtlasModel, g: CachedGlyph, r: Rastered) -> bool {
    let stride = m.side * r.bpp();
    forall|i: int, j: int|
        #![trigger m.pages(g.color)[g.page as int].data[(g.y + i) * stride + (g.x * r.bpp() + j)]]
        0 <= i < r.height && 0 <= j < r.width * r.bpp() ==> m.pages(
            g.color,
        )[g.page as int].data[(g.y + i) * stride + (g.x * r.bpp() + j)] == r.data@[i * (r.width
            * r.bpp()) + j]
}

fn write_bitmap(atlas: &mut GlyphAtlas, r: &Rastered) -> (slot: Option<AtlasSlot>)
    requires
        old(atlas).wf(),
        old(atlas).model().stats.allocations < u64::MAX,
        old(atlas).model().numbered(r.color),
        r.covered(),
    ensures
        final(atlas).wf(),
        written(
            old(atlas).model(),
            final(atlas).model(),
            r.color,
            slot,
            r.width as int,
            r.height as int,
            r.data@,
        ),
{
    assert(r.width * r.height * 1 == r.width * r.height) by (nonlinear_arith);
    proof {
        let pages = atlas.model().pages(r.color);
        assert(numbered(pages, r.width as int, r.height as int)) by {
            assert forall|i: int| 0 <= i < pages.len() implies (#[trigger] pages[i]).numbered() by {
                assert(atlas.model().pages(r.color)[i].numbered());
            }
        }
    }
    if r.color {
        atlas.write_color(r.width, r.height, r.data.as_slice())
    } else {
        atlas.write_alpha(r.width, r.height, r.data.as_slice())
    }
}

/// A write, successful or not, takes no slot away.
proof fn lemma_written_backed(
    c: CacheModel,
    before: AtlasModel,
    after: AtlasModel,
    color: bool,
    slot: Option<AtlasSlot>,
    w: int,
    h: int,
    src: Seq<u8>,
)
    requires
        c.backed(before),
        written(before, after, color, slot, w, h, src),
    ensures
        c.backed(after),
        slot matches Some(s) ==> after.holds(color, s.page, s.alloc) && forall|k: u128|
            #[trigger] c.entries.dom().contains(k) ==> !(c.entries[k].glyph.alloc == Some(s.alloc)
                && c.entries[k].glyph.page == s.page && c.entries[k].glyph.color == color),
{
    assert forall|k: u128| #[trigger] c.entries.dom().contains(k) implies (
    c.entries[k].glyph.alloc matches Some(a) ==> after.holds(
        c.entries[k].glyph.color,
        c.entries[k].glyph.page,
        a,
    )) by {
        let g = c.entries[k].glyph;
        if let Some(a) = g.alloc {
            assert(before.holds(g.color, g.page, a));
            if g.color == color {
                let b = before.pages(color);
                let f = after.pages(color);
                match slot {
                    Some(s) => {
                        if g.page == s.page {
                            assert(f[g.page as int].cells.dom().contains(a));
                        } else {
                            assert(f[g.page as int] == b[g.page as int]);
                        }
                    },
                    None => {
                        assert(f[g.page as int] == b[g.page as int]);
                    },
                }
            } else {
                assert(g.color == !color);
            }
        }
    }
}

/// Bitmap rows are where the slot says.
proof fn lemma_written_stored(
    before: AtlasModel,
    after: AtlasModel,
    slot: AtlasSlot,
    r: Rastered,
    g: CachedGlyph,
)
    requires
        before.wf(),
        after.wf(),
        written(
            before,
            after,
            r.color,
            Some(slot),
            r.width as int,
            r.height as int,
            r.data@,
        ),
        g.color == r.color,
        g.page == slot.page,
        g.x == slot.x,
        g.y == slot.y,
    ensures
        stored(after, g, r),
{
    let bpp = r.bpp();
    let side = after.side;
    let stride = side * bpp;
    let p = slot.page as int;
    let page = after.pages(r.color)[p];
    let cell = page.cells[slot.alloc];
    assert(page.cells.dom().contains(slot.alloc));
    assert(page.wf(side, bpp));
    assert(slot.x + r.width <= side && slot.y + r.height <= side);
    assert forall|i: int, j: int|
        #![trigger page.data[(g.y + i) * stride + (g.x * bpp + j)]]
        0 <= i < r.height && 0 <= j < r.width * bpp implies page.data[(g.y + i) * stride + (g.x
        * bpp + j)] == r.data@[i * (r.width * bpp) + j] by {
        let rr = g.y + i;
        let cc = g.x * bpp + j;
        assert((slot.x + r.width) * bpp == slot.x * bpp + r.width * bpp) by (nonlinear_arith);
        assert((slot.x + r.width) * bpp <= stride && 0 <= slot.x * bpp) by (nonlinear_arith)
            requires
                slot.x + r.width <= side,
                stride == side * bpp,
                bpp > 0,
                0 <= slot.x,
        ;
        assert(0 <= rr < side && 0 <= cc < stride);
        assert(page.data[rr * stride + cc] == r.data@[(rr - slot.y) * (r.width * bpp) + (cc
            - slot.x * bpp)]);
    }
}

/// A bitmap was put into the atlas, or could not be. A blank one takes no
/// room. Another one is written; each time the write is refused, the oldest
/// entry of its set that was not used on this frame goes, and the write is
/// tried again. So nothing goes where there is room from the start, nothing
/// more goes once there is room, and the bitmap is refused only where nothing
/// more can go. It lies on a page, in a slot of its own.
pub open spec fn landed(
    cache: CacheModel,
    cache_after: CacheModel,
    atlas: AtlasModel,
    atlas_after: AtlasModel,
    r: Rastered,
    out: Option<CachedGlyph>,
) -> bool {
    &&& thinned(cache, cache_after, r.color)
    &&& atlas_after.side == atlas.side
    &&& if r.width == 0 || r.height == 0 {
        &&& out == Some(blank_glyph())
        &&& atlas_after == atlas
        &&& cache_after == cache
    } else {
        &&& exists|rounds: Seq<Round>|
            {
                &&& #[trigger] paying(rounds, r)
                &&& rounds[0] == (Round { cache, atlas })
                &&& rounds.last().cache == cache_after
                &&& tried(rounds.last().atlas, atlas_after, r, slot_of(out))
            }
        &&& atlas.has_room(r.color, r.width as int, r.height as int) ==> out is Some
            && cache_after == cache
        &&& match out {
            Some(g) => {
                &&& g.alloc matches Some(a) && atlas_after.holds(r.color, g.page, a)
                &&& cache_after.unshared(g)
                &&& g.color == r.color
                &&& g.w == r.width && g.h == r.height
                &&& g.left == r.left as i16 && g.top == r.top as i16
                &&& stored(atlas_after, g, r)
                &&& g.x + g.w <= atlas_after.side
                &&& g.y + g.h <= atlas_after.side
                &&& fits(atlas.side, r.width as int, r.height as int)
            },
            None => forall|k: u128| !cache_after.evictable(k, r.color),
        }
    }
}

/// One more round: the last write was refused and an entry went.
proof fn lemma_paid(rounds: Seq<Round>, next: Round, mid: AtlasModel, k: u128, r: Rastered)
    requires
        paying(rounds, r),
        tried(rounds.last().atlas, mid, r, None),
        evicted(rounds.last().cache, next.cache, mid, next.atlas, r.color, k),
    ensures
        paying(rounds.push(next), r),
{
    let more = rounds.push(next);
    assert forall|i: int| 0 <= i < more.len() - 1 implies #[trigger] paid(more, i, r) by {
        if i < rounds.len() - 1 {
            assert(paid(rounds, i, r));
            let (m, j) = choose|m: AtlasModel, j: u128|
                #![trigger evicted(
                    rounds[i].cache,
                    rounds[i + 1].cache,
                    m,
                    rounds[i + 1].atlas,
                    r.color,
                    j,
                )]
                tried(rounds[i].atlas, m, r, None) && evicted(
                    rounds[i].cache,
                    rounds[i + 1].cache,
                    m,
                    rounds[i + 1].atlas,
                    r.color,
                    j,
                );
            assert(evicted(more[i].cache, more[i + 1].cache, m, more[i + 1].atlas, r.color, j));
        } else {
            assert(evicted(more[i].cache, more[i + 1].cache, mid, more[i + 1].atlas, r.color, k));
        }
    }
}

/// One eviction more keeps the order of use.
proof fn lemma_thinned(before: CacheModel, mid: CacheModel, after: CacheModel, color: bool, k: u128)
    requires
        thinned(before, mid, color),
        mid.oldest(k, color),
        after == (CacheModel { entries: mid.entries.remove(k), ..mid }),
    ensures
        thinned(before, after, color),
{
    assert forall|i: u128, j: u128|
        #![trigger before.entries.dom().contains(i), after.evictable(j, color)]
        before.entries.dom().contains(i) && !after.entries.dom().contains(i) && after.evictable(
            j,
            color,
        ) implies before.entries[i].last_used <= before.entries[j].last_used by {
        assert(mid.entries.dom().contains(j));
        assert(mid.evictable(j, color));
        if i != k {
            assert(!mid.entries.dom().contains(i));
        } else {
            assert(mid.entries.dom().contains(k));
        }
    }
    assert forall|i: u128| #[trigger]
        before.entries.dom().contains(i) && !after.entries.dom().contains(
            i,
        ) implies before.evictable(i, color) by {
        if i == k {
            assert(mid.entries.dom().contains(k));
        }
    }
}

/// Writes one rasterized glyph into the atlas. At the page cap the
/// least-recently-used entries of the same set are evicted until the write
/// lands; `None` where nothing more can go.
pub fn insert_into_atlas(
    atlas: &mut GlyphAtlas,
    cache: &mut GlyphCache,
    r: &Rastered,
) -> (out: Option<CachedGlyph>)
    requires
        old(atlas).wf(),
        old(cache).model().wf(),
        old(cache).model().backed(old(atlas).model()),
        old(atlas).model().stats.allocations < u64::MAX,
        old(atlas).model().stats.evictions + old(cache).model().entries.len() < u64::MAX,
        r.width > 0 && r.height > 0 ==> old(atlas).model().numbered(r.color),
        r.covered(),
    ensures
        final(atlas).wf(),
        final(cache).model().wf(),
        final(cache).model().backed(final(atlas).model()),
        landed(
            old(cache).model(),
            final(cache).model(),
            old(atlas).model(),
            final(atlas).model(),
            *r,
            out,
        ),
{
    let ghost cache0 = cache.model();
    let ghost atlas0 = atlas.model();
    if r.width == 0 || r.height == 0 {
        return Some(
            CachedGlyph {
                alloc: None,
                page: 0,
                color: false,
                x: 0,
                y: 0,
                w: 0,
                h: 0,
                left: 0,
                top: 0,
            },
        );
    }
    let ghost mut before = atlas.model();
    let ghost mut rounds: Seq<Round> = seq![Round { cache: cache0, atlas: atlas0 }];
    proof {
        atlas.lemma_wf();
    }
    let mut slot: Option<AtlasSlot> = write_bitmap(atlas, r);
    proof {
        lemma_written_backed(
            cache0,
            before,
            atlas.model(),
            r.color,
            slot,
            r.width as int,
            r.height as int,
            r.data@,
        );
    }
    while slot.is_none()
        invariant
            r.covered(),
            r.width > 0 && r.height > 0,
            cache0 == old(cache).model(),
            atlas0 == old(atlas).model(),
            atlas.wf(),
            cache.model().wf(),
            before.wf(),
            cache.model().backed(atlas.model()),
            before.side == atlas0.side,
            atlas.model().side == atlas0.side,
            written(
                before,
                atlas.model(),
                r.color,
                slot,
                r.width as int,
                r.height as int,
                r.data@,
            ),
            thinned(cache0, cache.model(), r.color),
            slot is None ==> atlas.model().stats.allocations < u64::MAX,
            slot is None ==> atlas.model().numbered(r.color),
            atlas.model().stats.evictions + cache.model().entries.len() < u64::MAX,
            slot matches Some(s) ==> atlas.model().holds(r.color, s.page, s.alloc) && forall|
                k: u128,
            | #[trigger]
                cache.model().entries.dom().contains(k) ==> !(cache.model().entries[k].glyph.alloc
                    == Some(s.alloc) && cache.model().entries[k].glyph.page == s.page
                    && cache.model().entries[k].glyph.color == r.color),
            atlas0.has_room(r.color, r.width as int, r.height as int) ==> slot is Some
                && cache.model() == cache0,
            paying(rounds, *r),
            rounds[0] == (Round { cache: cache0, atlas: atlas0 }),
            rounds.last() == (Round { cache: cache.model(), atlas: before }),
        decreases
                if slot is None {
                    cache.model().entries.len() + 1
                } else {
                    0
                },
    {
        let ghost was = cache.model();
        let ghost held = atlas.model();
        if !cache.evict_oldest(atlas, r.color) {
            return None;
        }
        let ghost thin = cache.model();
        proof {
            let k = choose|k: u128| evicted(was, thin, held, atlas.model(), r.color, k);
            assert(was.entries.dom().contains(k));
            assert(thin.entries.len() == was.entries.len() - 1);
            lemma_thinned(cache0, was, thin, r.color, k);
            let next = Round { cache: thin, atlas: atlas.model() };
            lemma_paid(rounds, next, held, k, *r);
            rounds = rounds.push(next);
            before = atlas.model();
            atlas.lemma_wf();
        }
        slot = write_bitmap(atlas, r);
        proof {
            lemma_written_backed(
                thin,
                before,
                atlas.model(),
                r.color,
                slot,
                r.width as int,
                r.height as int,
                r.data@,
            );
        }
    }
    match slot {
        Some(s) => {
            let g = CachedGlyph {
                alloc: Some(s.alloc),
                page: s.page,
                color: r.color,
                x: s.x,
                y: s.y,
                w: r.width as u16,
                h: r.height as u16,
                left: r.left as i16,
                top: r.top as i16,
            };
            proof {
                atlas.lemma_wf();
                lemma_written_stored(before, atlas.model(), s, *r, g);
                let page = atlas.model().pages(r.color)[s.page as int];
                assert(page.cells.dom().contains(s.alloc));
            }
            Some(g)
        },
        None => None,
    }
}

/// Where a cached glyph is drawn, in whole physical pixels, and which part
/// of its page it takes.
#[derive(Clone, Copy, Debug, PartialEq, Eq, Structural)]
pub struct GlyphQuad {
    pub x: i32,
    pub y: i32,
    pub w: u16,
    pub h: u16,
    pub u0: u16,
    pub v0: u16,
    pub u1: u16,
    pub v1: u16,
    pub page: u16,
    pub color: bool,
}

/// The quad of a glyph whose origin falls in pixel (ix, iy): offset by its
/// placement, with its own part of the page. `None` for a glyph without
/// area.
pub open spec fn quad_of(ix: i32, iy: i32, g: CachedGlyph) -> Option<GlyphQuad> {
    if g.w == 0 || g.h == 0 {
        None
    } else {
        Some(
            GlyphQuad {
                x: (ix + g.left) as i32,
                y: (iy - g.top) as i32,
                w: g.w,
                h: g.h,
                u0: g.x,
                v0: g.y,
                u1: (g.x + g.w) as u16,
                v1: (g.y + g.h) as u16,
                page: g.page,
                color: g.color,
            },
        )
    }
}

/// The quad of a cached glyph at a pixel.
pub fn glyph_quad(ix: i32, iy: i32, g: &CachedGlyph) -> (q: Option<GlyphQuad>)
    requires
        -0x2000_0000 <= ix < 0x2000_0000,
        -0x2000_0000 <= iy < 0x2000_0000,
        g.x + g.w <= 0xFFFF,
        g.y + g.h <= 0xFFFF,
    ensures
        q == quad_of(ix, iy, *g),
{
    if g.w == 0 || g.h == 0 {
        return None;
    }
    Some(
        GlyphQuad {
            x: ix + g.left as i32,
            y: iy - g.top as i32,
            w: g.w,
            h: g.h,
            u0: g.x,
            v0: g.y,
            u1: g.x + g.w,
            v1: g.y + g.h,
            page: g.page,
            color: g.color,
        },
    )
}

/// The cache key of a glyph: its subpixel quarters share one byte.
pub fn glyph_key(
    font: u16,
    coords: u16,
    glyph: u16,
    size_bits: u32,
    sx: u8,
    sy: u8,
) -> (k: GlyphKey)
    requires
        sx < 4,
        sy < 4,
    ensures
        k == (GlyphKey {
            font,
            coords,
            glyph,
            size_bits,
            subpixel: (sx + 4 * sy) as u8,
            _pad: 0,
        }),
{
    GlyphKey { font, coords, glyph, size_bits, subpixel: sx + 4 * sy, _pad: 0 }
}

/// Counters of one emission, for instrumentation.
#[derive(Clone, Copy, Debug, PartialEq, Eq, Structural)]
pub struct EmitStats {
    pub glyph_runs: u32,
    pub glyphs: u32,
    pub cache_hits_before: u64,
    pub cache_misses_before: u64,
}

/// What the glyphs of one run share in their keys.
#[derive(Clone, Copy, Debug, PartialEq, Eq, Structural)]
pub struct RunSlots {
    pub font: u16,
    pub coords: u16,
    pub size_bits: u32,
}

/// A font face with the settings that change its outlines.
#[derive(Debug)]
pub struct RunFont {
    pub blob_id: u64,
    pub face_index: u32,
    pub coords: Vec<i16>,
    pub embolden: bool,
    /// Slant in 64ths.
    pub skew: i16,
    /// Bits of the physical-pixel size.
    pub size_bits: u32,
}

/// What a glyph of a run comes to.
#[derive(Clone, Copy, Debug, PartialEq, Eq)]
pub enum GlyphStep {
    /// It is in the cache and has area.
    Draw(GlyphQuad),
    /// It is in the cache and has no area.
    Blank,
    /// It has to be rasterized at the quarter offsets of its key.
    Raster(GlyphKey),
}

/// A whole number of quarter pixels, split into the pixel below and the
/// quarter that is left.
pub open spec fn pixel_of(quarters: i32) -> i32 {
    (quarters as int / 4) as i32
}

pub open spec fn quarter_of(quarters: i32) -> u8 {
    (quarters as int % 4) as u8
}

/// The key of a glyph of a run whose origin lies at (x, y), in quarter
/// pixels.
pub open spec fn key_at(run: RunSlots, glyph: u16, x: i32, y: i32) -> GlyphKey {
    GlyphKey {
        font: run.font,
        coords: run.coords,
        glyph,
        size_bits: run.size_bits,
        subpixel: (quarter_of(x) + 4 * quarter_of(y)) as u8,
        _pad: 0,
    }
}

/// What a glyph with this key, at (x, y) in quarter pixels, comes to.
pub open spec fn step_for(m: CacheModel, key: GlyphKey, x: i32, y: i32) -> GlyphStep {
    match m.found(key.word()) {
        Some(g) => match quad_of(pixel_of(x), pixel_of(y), g) {
            Some(q) => GlyphStep::Draw(q),
            None => GlyphStep::Blank,
        },
        None => GlyphStep::Raster(key),
    }
}

/// The allocator of a page may have no number left for another slot.
#[derive(Clone, Copy, Debug, PartialEq, Eq, Structural)]
pub struct OutOfNumbers;

/// The raster cache with the atlas that its bitmaps lie in.
pub struct GlyphStore {
    pub cache: GlyphCache,
    pub atlas: GlyphAtlas,
}

/// Every entry lies on its page.
pub open spec fn placed(c: CacheModel, side: int) -> bool {
    forall|k: u128| #[trigger]
        c.entries.dom().contains(k) ==> c.entries[k].glyph.x + c.entries[k].glyph.w <= side
            && c.entries[k].glyph.y + c.entries[k].glyph.h <= side
}

impl GlyphStore {
    /// Both parts are in order, every entry has a slot of its own, and lies
    /// on its page.
    pub open spec fn wf(self) -> bool {
        &&& self.cache.model().wf()
        &&& self.atlas.wf()
        &&& self.cache.model().backed(self.atlas.model())
        &&& placed(self.cache.model(), self.atlas.model().side)
    }

    /// No counter is at its end.
    pub open spec fn counts(self) -> bool {
        &&& self.cache.model().stats.hits < u64::MAX
        &&& self.cache.model().stats.misses < u64::MAX
        &&& self.cache.model().stats.rasters < u64::MAX
        &&& self.atlas.model().stats.allocations < u64::MAX
        &&& self.atlas.model().stats.evictions + self.cache.model().entries.len() < u64::MAX
    }

    /// The pages that a bitmap may go to have numbers left for its slot.
    pub open spec fn numbered(self, bitmap: Rastered) -> bool {
        bitmap.width > 0 && bitmap.height > 0 ==> self.atlas.model().numbered(bitmap.color)
    }

    /// It is certain that a bitmap can be taken: it has no area, or the pages
    /// of its set never held so many slots that numbers could have run out.
    pub open spec fn takes(self, bitmap: Rastered) -> bool {
        bitmap.width > 0 && bitmap.height > 0 ==> self.atlas.model().light(bitmap.color)
    }

    pub fn new() -> (r: GlyphStore)
        ensures
            r.wf(),
            r.cache.model() == CacheModel::empty(),
            r.atlas.model() == AtlasModel::fresh(
                ATLAS_PAGE_SIZE as int,
                MAX_ALPHA_PAGES as int,
                MAX_COLOR_PAGES as int,
            ),
    {
        GlyphStore { cache: GlyphCache::new(), atlas: GlyphAtlas::new() }
    }

    /// Counters at the start of an emission.
    pub fn begin_emit(&self) -> (r: EmitStats)
        ensures
            r == (EmitStats {
                glyph_runs: 0,
                glyphs: 0,
                cache_hits_before: self.cache.model().stats.hits,
                cache_misses_before: self.cache.model().stats.misses,
            }),
    {
        let stats = self.cache.counters();
        EmitStats {
            glyph_runs: 0,
            glyphs: 0,
            cache_hits_before: stats.hits,
            cache_misses_before: stats.misses,
        }
    }

    /// Starts a run: interns its font and its settings.
    pub fn begin_run(&mut self, font: &RunFont) -> (r: RunSlots)
        requires
            old(self).wf(),
        ensures
            final(self).wf(),
            final(self).atlas == old(self).atlas,
            r.size_bits == font.size_bits,
            ({
                let m = old(self).cache.model();
                let k = font_word(font.blob_id, font.face_index);
                let row = CoordsModel {
                    coords: font.coords@,
                    embolden: font.embolden,
                    skew: font.skew,
                };
                &&& r.font == m.font_number(k)
                &&& r.coords == m.row_number(row)
                &&& final(self).cache.model() == m.with_font(k).with_row(row)
            }),
    {
        let slot: u16 = self.cache.font_slot(font.blob_id, font.face_index);
        let coords: u16 = self.cache.coords_slot(
            font.coords.as_slice(),
            font.embolden,
            font.skew,
        );
        RunSlots { font: slot, coords, size_bits: font.size_bits }
    }

    /// Takes one glyph of a run, at (x, y) in quarter pixels: a cached one is
    /// drawn from the cache and counts as used on this frame.
    pub fn step(&mut self, run: RunSlots, glyph: u16, x: i32, y: i32) -> (s: GlyphStep)
        requires
            old(self).wf(),
            old(self).counts(),
        ensures
            final(self).wf(),
            final(self).atlas == old(self).atlas,
            s == step_for(old(self).cache.model(), key_at(run, glyph, x, y), x, y),
            final(self).cache.model() == old(self).cache.model().looked_up(
                key_at(run, glyph, x, y).word(),
            ),
    {
        let ghost m = self.cache.model();
        let (ix, sx) = quantize_subpixel(x);
        let (iy, sy) = quantize_subpixel(y);
        let key = glyph_key(run.font, run.coords, glyph, run.size_bits, sx, sy);
        let found: Option<CachedGlyph> = self.cache.get(&key);
        proof {
            self.atlas.lemma_wf();
            let now = self.cache.model();
            assert forall|k: u128| #[trigger] now.entries.dom().contains(k) implies
                m.entries.dom().contains(k) && now.entries[k].glyph == m.entries[k].glyph by {}
        }
        match found {
            Some(g) => match glyph_quad(ix, iy, &g) {
                Some(q) => GlyphStep::Draw(q),
                None => GlyphStep::Blank,
            },
            None => GlyphStep::Raster(key),
        }
    }

    /// Takes the bitmap of a glyph that had to be rasterized: it is counted,
    /// put into the atlas and cached. `None` where it has no area, or the
    /// atlas is full of what this frame draws.
    pub fn install(&mut self, key: GlyphKey, x: i32, y: i32, bitmap: &Rastered) -> (q: Option<
        GlyphQuad,
    >)
        requires
            old(self).wf(),
            old(self).counts(),
            old(self).numbered(*bitmap),
            bitmap.covered(),
        ensures
            final(self).wf(),
            installed(*old(self), *final(self), key, x, y, *bitmap, q),
    {
        let ghost c0 = self.cache.model();
        let ghost a0 = self.atlas.model();
        self.cache.note_raster();
        proof {
            assert(self.cache.model().backed(a0));
            self.atlas.lemma_wf();
        }
        let out: Option<CachedGlyph> = insert_into_atlas(&mut self.atlas, &mut self.cache, bitmap);
        let ghost mid = self.cache.model();
        proof {
            self.atlas.lemma_wf();
            assert(placed(mid, a0.side)) by {
                assert forall|k: u128| #[trigger] mid.entries.dom().contains(k) implies
                    mid.entries[k].glyph.x + mid.entries[k].glyph.w <= a0.side
                        && mid.entries[k].glyph.y + mid.entries[k].glyph.h <= a0.side by {
                    assert(c0.entries.dom().contains(k));
                }
            }
        }
        match out {
            Some(g) => {
                self.cache.insert(key, g);
                proof {
                    lemma_kept(mid, self.atlas.model(), key, g);
                }
                let (ix, sx) = quantize_subpixel(x);
                let (iy, sy) = quantize_subpixel(y);
                proof {
                    assert(ix == pixel_of(x) && iy == pixel_of(y));
                }
                let q = glyph_quad(ix, iy, &g);
                proof {
                    assert(self.cache.model() == kept(mid, key, out));
                    assert(q == out_quad(x, y, out));
                }
                q
            },
            None => {
                proof {
                    assert(self.cache.model() == kept(mid, key, out));
                }
                None
            },
        }
    }

    /// Takes the bitmap of a glyph where it is certain that its slot can be
    /// numbered; else nothing changes.
    pub fn try_install(&mut self, key: GlyphKey, x: i32, y: i32, bitmap: &Rastered) -> (r: Result<
        Option<GlyphQuad>,
        OutOfNumbers,
    >)
        requires
            old(self).wf(),
            old(self).counts(),
            bitmap.covered(),
        ensures
            final(self).wf(),
            r is Ok <==> old(self).takes(*bitmap),
            match r {
                Ok(q) => installed(*old(self), *final(self), key, x, y, *bitmap, q),
                Err(_) => *final(self) == *old(self),
            },
    {
        if bitmap.width > 0 && bitmap.height > 0 && !self.atlas.is_light(bitmap.color) {
            return Err(OutOfNumbers);
        }
        proof {
            self.atlas.lemma_wf();
            if bitmap.width > 0 && bitmap.height > 0 {
                law_light_pages_have_numbers(
                    self.atlas.model(),
                    bitmap.color,
                    bitmap.width as int,
                    bitmap.height as int,
                );
            }
        }
        Ok(self.install(key, x, y, bitmap))
    }
}

/// The bitmap of a glyph was taken: counted, put into the atlas, with what
/// went to make room for it, and cached.
pub open spec fn installed(
    before: GlyphStore,
    after: GlyphStore,
    key: GlyphKey,
    x: i32,
    y: i32,
    bitmap: Rastered,
    q: Option<GlyphQuad>,
) -> bool {
    exists|mid: CacheModel, out: Option<CachedGlyph>|
        #![trigger kept(mid, key, out)]
        landed(
            counted(before.cache.model()),
            mid,
            before.atlas.model(),
            after.atlas.model(),
            bitmap,
            out,
        ) && after.cache.model() == kept(mid, key, out) && q == out_quad(x, y, out)
}

/// The quad of a glyph, if there is one, at (x, y) in quarter pixels.
pub open spec fn out_quad(x: i32, y: i32, out: Option<CachedGlyph>) -> Option<GlyphQuad> {
    match out {
        Some(g) => quad_of(pixel_of(x), pixel_of(y), g),
        None => None,
    }
}

/// A cache with one more rasterization counted.
pub open spec fn counted(m: CacheModel) -> CacheModel {
    CacheModel {
        stats: CacheStats { rasters: (m.stats.rasters + 1) as u64, ..m.stats },
        ..m
    }
}

/// A cache with a glyph, if there is one, under its key.
pub open spec fn kept(m: CacheModel, key: GlyphKey, out: Option<CachedGlyph>) -> CacheModel {
    match out {
        Some(g) => CacheModel {
            entries: m.entries.insert(key.word(), Entry { glyph: g, last_used: m.tick }),
            ..m
        },
        None => m,
    }
}

/// A glyph with a slot of its own can join the cache.
proof fn lemma_kept(m: CacheModel, atlas: AtlasModel, key: GlyphKey, g: CachedGlyph)
    requires
        m.backed(atlas),
        g.alloc matches Some(a) ==> atlas.holds(g.color, g.page, a),
        m.unshared(g),
    ensures
        kept(m, key, Some(g)).backed(atlas),
{
    let n = kept(m, key, Some(g));
    let w = key.word();
    assert forall|j: u128, k: u128|
        #![trigger n.entries.dom().contains(j), n.entries.dom().contains(k)]
        n.entries.dom().contains(j) && n.entries.dom().contains(k) && j != k implies !same_slot(
        n.entries[j].glyph,
        n.entries[k].glyph,
    ) by {
        assert(j != w ==> m.entries.dom().contains(j));
        assert(k != w ==> m.entries.dom().contains(k));
    }
}

/// What a frame has drawn stays where it is until the frame is over: putting
/// another glyph into the atlas takes no entry that this frame has used.
pub proof fn law_drawn_glyphs_stay(
    cache: CacheModel,
    cache_after: CacheModel,
    atlas: AtlasModel,
    atlas_after: AtlasModel,
    r: Rastered,
    out: Option<CachedGlyph>,
    k: u128,
)
    requires
        landed(cache, cache_after, atlas, atlas_after, r, out),
        cache.entries.dom().contains(k),
        cache.entries[k].last_used == cache.tick,
    ensures
        cache_after.entries.dom().contains(k),
        cache_after.entries[k] == cache.entries[k],
{
}

/// A glyph that was installed is found again: the next step for its key is
/// not a raster, so that drawing an unchanged run again rasterizes nothing.
pub proof fn law_installed_is_found(m: CacheModel, key: GlyphKey, g: CachedGlyph)
    ensures
        kept(m, key, Some(g)).entries.dom().contains(key.word()),
        kept(m, key, Some(g)).entries[key.word()].glyph == g,
{
}

} // verus!
