//! What the text subsystem keeps and tells, told by what can be read of it
//! afterwards.

use super::atlas::{
    fits, gave_back, undirtied, written, AtlasModel, AtlasSlot, PageModel, ATLAS_PAGE_SIZE, GUTTER,
    MAX_ALPHA_PAGES, MAX_COLOR_PAGES,
};
use super::cache::{
    evicted, row_index, same_slot, CacheModel, CachedGlyph, CoordsModel, GlyphKey, SUBPIXEL_STEPS,
};
use super::engine::{
    key_at, kept, landed, out_quad, pixel_of, quad_of, quarter_of, step_for, GlyphStep, Rastered,
    RunSlots,
};
use vstd::prelude::*;

verus! {

// ------------------------------------------------------------------------ atlas

/// The sizes of the atlas: square pages of 2048 pixels, at most four of them
/// for alpha and two for color, and one pixel of gutter round each bitmap.
pub proof fn law_atlas_sizes()
    ensures
        ATLAS_PAGE_SIZE == 2048,
        MAX_ALPHA_PAGES == 4,
        MAX_COLOR_PAGES == 2,
        GUTTER == 1,
{
}

/// A fresh atlas has no page, and the two sets have their own pages and caps.
pub proof fn law_sets_are_apart(m: AtlasModel, side: int, a: int, c: int)
    ensures
        ({
            let f = AtlasModel::fresh(side, a, c);
            &&& f.alpha.len() == 0 && f.color.len() == 0 && f.side == side
            &&& f.cap(false) == a && f.cap(true) == c
            &&& f.stats.allocations == 0 && f.stats.evictions == 0
            &&& f.stats.alpha_pages == 0 && f.stats.color_pages == 0
        }),
        m.pages(false) == m.alpha && m.pages(true) == m.color,
        m.cap(false) == m.max_alpha && m.cap(true) == m.max_color,
{
}

/// A bitmap that was written is on its page, byte for byte: its rows at the
/// slot, one byte for a pixel of the alpha set and four for one of the color
/// set.
pub proof fn law_bitmaps_are_on_their_page(
    before: AtlasModel,
    after: AtlasModel,
    color: bool,
    slot: AtlasSlot,
    w: int,
    h: int,
    src: Seq<u8>,
    r: int,
    c: int,
)
    requires
        after.wf(),
        written(before, after, color, Some(slot), w, h, src),
        0 <= r < h,
        0 <= c < w * (if color {
            4int
        } else {
            1int
        }),
    ensures
        ({
            let bpp: int = if color {
                4
            } else {
                1
            };
            let stride = before.side * bpp;
            after.pages(color)[slot.page as int].data[(slot.y + r) * stride + (slot.x * bpp + c)]
                == src[r * (w * bpp) + c]
        }),
{
    let bpp: int = if color {
        4
    } else {
        1
    };
    let stride = before.side * bpp;
    let cell = after.pages(color)[slot.page as int].cells[slot.alloc];
    assert(fits(before.side, w, h));
    lemma_slot_on_page(before, after, color, slot, w, h, src);
    assert(slot.x * bpp + c < stride && (slot.x + w) * bpp == slot.x * bpp + w * bpp)
        by (nonlinear_arith)
        requires
            c < w * bpp,
            slot.x + w <= before.side,
            stride == before.side * bpp,
            bpp > 0,
    ;
    assert(0 <= slot.x * bpp) by (nonlinear_arith)
        requires
            bpp > 0,
            0 <= slot.x,
    ;
    let data = after.pages(color)[slot.page as int].data;
    assert(data[(slot.y + r) * stride + (slot.x * bpp + c)] == src[((slot.y + r) - slot.y) * (w
        * bpp) + ((slot.x * bpp + c) - slot.x * bpp)]);
}

/// The slot of a written bitmap, with a pixel of gutter on every side, lies on
/// the page.
proof fn lemma_slot_on_page(
    before: AtlasModel,
    after: AtlasModel,
    color: bool,
    slot: AtlasSlot,
    w: int,
    h: int,
    src: Seq<u8>,
)
    requires
        after.wf(),
        written(before, after, color, Some(slot), w, h, src),
    ensures
        slot.x + w <= before.side,
        slot.y + h <= before.side,
{
    let page = after.pages(color)[slot.page as int];
    assert(page.wf(
        after.side,
        if color {
            4
        } else {
            1
        },
    ));
    assert(page.cells.dom().contains(slot.alloc));
}

/// A bitmap goes to the first page with room for it and a pixel of gutter on
/// every side; where no page has it, to a new page.
pub proof fn law_first_page_with_room(
    before: AtlasModel,
    after: AtlasModel,
    color: bool,
    slot: AtlasSlot,
    w: int,
    h: int,
    src: Seq<u8>,
    i: int,
)
    requires
        written(before, after, color, Some(slot), w, h, src),
        0 <= i < before.pages(color).len(),
    ensures
        i < slot.page ==> !before.pages(color)[i].room.contains((w + 2, h + 2)),
        i == slot.page ==> before.pages(color)[i].room.contains((w + 2, h + 2)),
        slot.page <= before.pages(color).len(),
        after.pages(color).len() == (if slot.page == before.pages(color).len() {
            before.pages(color).len() + 1
        } else {
            before.pages(color).len()
        }),
        i != slot.page ==> after.pages(color)[i] == before.pages(color)[i],
        after.pages(!color) == before.pages(!color),
        after.stats.allocations == before.stats.allocations + 1,
        after.stats.evictions == before.stats.evictions,
{
    let pages = before.pages(color);
    if i < slot.page {
        assert(!pages[i].room_for(w, h));
    }
}

/// A bitmap is refused exactly where no page has room for it and no page can
/// be added that has: the set is at its cap, or the bitmap with its gutter is
/// larger than a page. A refusal counts nothing and takes nothing.
pub proof fn law_refused_for_want_of_room(
    before: AtlasModel,
    after: AtlasModel,
    color: bool,
    slot: Option<AtlasSlot>,
    w: int,
    h: int,
    src: Seq<u8>,
)
    requires
        written(before, after, color, slot, w, h, src),
    ensures
        slot is None <==> {
            &&& forall|i: int|
                0 <= i < before.pages(color).len() ==> !(#[trigger] before.pages(
                    color,
                )[i]).room.contains((w + 2, h + 2))
            &&& before.pages(color).len() >= before.cap(color) || w + 2 > before.side || h + 2
                > before.side
        },
        slot is None ==> {
            &&& after.stats.allocations == before.stats.allocations
            &&& after.pages(!color) == before.pages(!color)
            &&& forall|i: int|
                0 <= i < before.pages(color).len() ==> #[trigger] after.pages(color)[i]
                    == before.pages(color)[i]
        },
{
    let pages = before.pages(color);
    if slot is None {
        assert forall|i: int| 0 <= i < pages.len() implies !(
        #[trigger] pages[i]).room.contains((w + 2, h + 2)) by {
            assert(!pages[i].room_for(w, h));
        }
    }
}

/// The slot of a bitmap keeps a pixel of gutter on every side of it, and was
/// free before.
pub proof fn law_slots_keep_a_gutter(
    before: AtlasModel,
    after: AtlasModel,
    color: bool,
    slot: AtlasSlot,
    w: int,
    h: int,
    src: Seq<u8>,
)
    requires
        written(before, after, color, Some(slot), w, h, src),
    ensures
        ({
            let cell = after.pages(color)[slot.page as int].cells[slot.alloc];
            &&& after.holds(color, slot.page, slot.alloc)
            &&& !before.holds(color, slot.page, slot.alloc)
            &&& slot.x - cell.0 == 1 && slot.y - cell.1 == 1
            &&& cell.2 - (slot.x + w) >= 1 && cell.3 - (slot.y + h) >= 1
        }),
{
}

/// What was written has to be sent: the changed region and the used region of
/// the page reach from the outermost of what they were and the bitmap.
pub proof fn law_written_regions_reach(
    before: AtlasModel,
    after: AtlasModel,
    color: bool,
    slot: AtlasSlot,
    w: int,
    h: int,
    src: Seq<u8>,
    x: int,
    y: int,
)
    requires
        after.wf(),
        written(before, after, color, Some(slot), w, h, src),
        0 <= w && 0 <= h,
    ensures
        ({
            let page = after.pages(color)[slot.page as int];
            let on_it = slot.x <= x < slot.x + w && slot.y <= y < slot.y + h;
            &&& page.dirty is Some && page.used is Some
            &&& on_it ==> page.dirty.unwrap().covers(x, y) && page.used.unwrap().covers(x, y)
            &&& slot.page < before.pages(color).len() ==> {
                let was = before.pages(color)[slot.page as int];
                &&& was.dirty is Some && was.dirty.unwrap().covers(x, y)
                    ==> page.dirty.unwrap().covers(x, y)
                &&& was.used is Some && was.used.unwrap().covers(x, y)
                    ==> page.used.unwrap().covers(x, y)
                &&& was.dirty is None ==> (page.dirty.unwrap().covers(x, y) <==> on_it)
                &&& was.used is None ==> (page.used.unwrap().covers(x, y) <==> on_it)
            }
            &&& slot.page == before.pages(color).len() ==> (page.dirty.unwrap().covers(x, y)
                <==> on_it)
        }),
{
    lemma_slot_on_page(before, after, color, slot, w, h, src);
}

/// Cleaning leaves no page changed, and keeps all else.
pub proof fn law_clean_pages(pages: Seq<PageModel>, i: int)
    requires
        0 <= i < pages.len(),
    ensures
        undirtied(pages).len() == pages.len(),
        undirtied(pages)[i].dirty is None,
        undirtied(pages)[i] == (PageModel { dirty: undirtied(pages)[i].dirty, ..pages[i] }),
{
}

/// A slot that is given back is no longer in use; every other slot is, every
/// byte stays, and one eviction is counted.
pub proof fn law_given_back(
    before: AtlasModel,
    after: AtlasModel,
    color: bool,
    page: u16,
    alloc: u32,
    on: u16,
    other: u32,
)
    requires
        before.holds(color, page, alloc),
        before.stats.evictions < u64::MAX,
        gave_back(before, after, color, page, alloc),
    ensures
        !after.holds(color, page, alloc),
        on != page || other != alloc ==> after.holds(color, on, other) == before.holds(
            color,
            on,
            other,
        ),
        after.holds(!color, on, other) == before.holds(!color, on, other),
        on < before.pages(color).len() ==> after.pages(color)[on as int].data == before.pages(
            color,
        )[on as int].data,
        after.stats.evictions == before.stats.evictions + 1,
        after.stats.allocations == before.stats.allocations,
{
    let p = page as int;
    let b = before.pages(color);
    let f = after.pages(color);
    assert(f[p].cells == b[p].cells.remove(alloc));
    if on != page && on < b.len() {
        assert(f[on as int] == b[on as int]);
    }
}

// ------------------------------------------------------------------------ cache

/// A lookup finds what was stored under the key, counts a hit and stamps the
/// entry with the frame; without an entry it finds nothing and counts a miss.
/// Other entries stay as they are.
pub proof fn law_lookups_find_what_is_there(m: CacheModel, k: u128, other: u128)
    requires
        other != k,
        m.stats.hits < u64::MAX,
        m.stats.misses < u64::MAX,
    ensures
        ({
            let n = m.looked_up(k);
            let there = m.entries.dom().contains(k);
            &&& m.found(k) is Some <==> there
            &&& there ==> m.found(k) == Some(m.entries[k].glyph)
            &&& n.found(k) == m.found(k)
            &&& there ==> n.entries[k].last_used == m.tick
            &&& n.stats.hits == m.stats.hits + (if there {
                1int
            } else {
                0
            })
            &&& n.stats.misses == m.stats.misses + (if there {
                0int
            } else {
                1
            })
            &&& n.stats.rasters == m.stats.rasters
            &&& n.entries.dom().contains(other) == m.entries.dom().contains(other)
            &&& n.entries[other] == m.entries[other]
            &&& n.fonts == m.fonts && n.coords == m.coords && n.tick == m.tick
        }),
{
}

/// A stored glyph is found under its key, as used on this frame; other entries
/// stay as they are.
pub proof fn law_stored_glyphs_are_found(m: CacheModel, k: u128, g: CachedGlyph, other: u128)
    requires
        other != k,
    ensures
        ({
            let n = m.with_glyph(k, g);
            &&& n.found(k) == Some(g)
            &&& n.entries[k].last_used == m.tick
            &&& n.found(other) == m.found(other)
            &&& n.entries[other] == m.entries[other]
            &&& n == (CacheModel { entries: n.entries, ..m })
        }),
{
}

/// A frame is one tick on, round the end; a rasterization is counted; nothing
/// else changes.
pub proof fn law_frames_and_rasters_are_counted(m: CacheModel)
    ensures
        m.tick < u32::MAX ==> m.ticked().tick == m.tick + 1,
        m.tick == u32::MAX ==> m.ticked().tick == 0,
        m.ticked() == (CacheModel { tick: m.ticked().tick, ..m }),
        m.stats.rasters < u64::MAX ==> m.rastered().stats.rasters == m.stats.rasters + 1,
        m.rastered().stats.hits == m.stats.hits && m.rastered().stats.misses == m.stats.misses,
        m.rastered() == (CacheModel { stats: m.rastered().stats, ..m }),
        ({
            let e = CacheModel::empty();
            &&& e.tick == 0 && e.coords.len() == 0
            &&& e.stats.hits == 0 && e.stats.misses == 0 && e.stats.rasters == 0
            &&& e.fonts == Map::<u128, u16>::empty()
            &&& forall|k: u128| e.found(k) is None
        }),
{
}

/// A font keeps the number that it got; a new one gets the number of fonts
/// there are, and the others keep theirs.
pub proof fn law_fonts_are_numbered_in_order(m: CacheModel, k: u128, other: u128)
    requires
        m.wf(),
        m.fonts.len() < 0x1_0000,
    ensures
        m.fonts.dom().contains(k) ==> m.font_number(k) == m.fonts[k] && m.with_font(k) == m,
        !m.fonts.dom().contains(k) ==> m.font_number(k) == m.fonts.len() && m.with_font(
            k,
        ).fonts.len() == m.fonts.len() + 1,
        m.with_font(k).fonts.dom().contains(k),
        m.with_font(k).font_number(k) == m.font_number(k),
        m.fonts.dom().contains(other) ==> m.with_font(k).font_number(other) == m.font_number(other),
        m.with_font(k) == (CacheModel { fonts: m.with_font(k).fonts, ..m }),
{
}

/// A row of settings keeps the number that it got: its place in the table. A
/// new one is added behind the others.
pub proof fn law_rows_are_numbered_in_order(m: CacheModel, row: CoordsModel)
    requires
        m.coords.len() < 0x1_0000,
    ensures
        ({
            let n = m.row_number(row) as int;
            &&& m.coords.contains(row) ==> n < m.coords.len() && m.coords[n] == row && m.with_row(
                row,
            ) == m
            &&& !m.coords.contains(row) ==> n == m.coords.len() && m.with_row(row).coords
                == m.coords.push(row)
            &&& m.with_row(row).row_number(row) == n
            &&& m.with_row(row) == (CacheModel { coords: m.with_row(row).coords, ..m })
        }),
{
    lemma_row(m.coords, row);
    lemma_row(m.with_row(row).coords, row);
    if !m.coords.contains(row) {
        let more = m.coords.push(row);
        assert(more[m.coords.len() as int] == row);
        let i = row_index(more, row);
        if i < m.coords.len() {
            assert(m.coords[i] == row);
        }
    }
}

proof fn lemma_row(table: Seq<CoordsModel>, row: CoordsModel)
    ensures
        0 <= row_index(table, row) <= table.len(),
        row_index(table, row) < table.len() <==> table.contains(row),
        row_index(table, row) < table.len() ==> table[row_index(table, row)] == row,
        forall|i: int| 0 <= i < row_index(table, row) ==> table[i] != row,
    decreases table.len(),
{
    if table.len() > 0 && table[0] != row {
        let rest = table.drop_first();
        lemma_row(rest, row);
        assert forall|i: int| 0 <= i < row_index(table, row) implies table[i] != row by {
            if i > 0 {
                assert(table[i] == rest[i - 1]);
            }
        }
        if table.contains(row) {
            let i = choose|i: int| 0 <= i < table.len() && table[i] == row;
            assert(rest[i - 1] == row);
        }
    }
}

/// The entry that goes is of the wanted set, was not used on this frame, and
/// no other such entry was used before it; only it goes.
pub proof fn law_the_oldest_goes(
    before: CacheModel,
    after: CacheModel,
    atlas: AtlasModel,
    atlas_after: AtlasModel,
    color: bool,
    k: u128,
    j: u128,
)
    requires
        evicted(before, after, atlas, atlas_after, color, k),
        j != k,
    ensures
        before.found(k) is Some && after.found(k) is None,
        before.found(k).unwrap().color == color,
        before.entries[k].last_used < before.tick,
        before.entries.dom().contains(j) && before.entries[j].glyph.color == color
            && before.entries[j].last_used < before.tick ==> before.entries[k].last_used
            <= before.entries[j].last_used,
        after.found(j) == before.found(j),
        after.tick == before.tick && after.stats == before.stats,
{
    if before.entries.dom().contains(j) && before.entries[j].glyph.color == color
        && before.entries[j].last_used < before.tick {
        assert(before.evictable(j, color));
    }
}

/// Two glyphs share a slot exactly where both have one, in the same set, on
/// the same page, under the same id.
pub proof fn law_shared_slots(a: CachedGlyph, b: CachedGlyph)
    ensures
        same_slot(a, b) <==> a.alloc is Some && b.alloc is Some && a.alloc.unwrap()
            == b.alloc.unwrap() && a.page == b.page && a.color == b.color,
{
}

// ----------------------------------------------------------------------- engine

/// A coordinate in quarter pixels is its pixel, counted down, and the quarters
/// that are left.
pub proof fn law_quarters_add_up(quarters: i32)
    ensures
        4 * pixel_of(quarters) + quarter_of(quarters) == quarters,
        quarter_of(quarters) < 4,
        SUBPIXEL_STEPS == 4,
{
}

/// The key of a glyph carries its run, its glyph, and the quarters of its
/// origin, x in the low two bits and y above them: moved by a whole pixel it
/// is the same key.
pub proof fn law_keys_carry_the_quarters(
    run: RunSlots,
    glyph: u16,
    x: i32,
    y: i32,
    dx: int,
    dy: int,
)
    requires
        i32::MIN <= x + 4 * dx <= i32::MAX,
        i32::MIN <= y + 4 * dy <= i32::MAX,
    ensures
        ({
            let k = key_at(run, glyph, x, y);
            &&& k.font == run.font && k.coords == run.coords && k.size_bits == run.size_bits
            &&& k.glyph == glyph
            &&& k.subpixel % 4 == quarter_of(x) && k.subpixel / 4 == quarter_of(y)
            &&& key_at(run, glyph, (x + 4 * dx) as i32, (y + 4 * dy) as i32) == k
        }),
{
}

/// A glyph is drawn at its pixel, moved right by its left bearing and up by
/// its top, as large as it is, with its own part of its page. One without
/// area is not drawn.
pub proof fn law_glyphs_are_drawn_in_place(ix: i32, iy: i32, g: CachedGlyph)
    requires
        -0x2000_0000 <= ix < 0x2000_0000,
        -0x2000_0000 <= iy < 0x2000_0000,
        g.x + g.w <= 0xFFFF,
        g.y + g.h <= 0xFFFF,
    ensures
        quad_of(ix, iy, g) is None <==> g.w == 0 || g.h == 0,
        quad_of(ix, iy, g) matches Some(q) ==> {
            &&& q.x - g.left == ix && q.y + g.top == iy
            &&& q.w == g.w && q.h == g.h
            &&& q.u0 == g.x && q.v0 == g.y
            &&& q.u1 - q.u0 == g.w && q.v1 - q.v0 == g.h
            &&& q.page == g.page && q.color == g.color
        },
{
}

/// A cached glyph is drawn at its pixel, or is blank; one that is not cached
/// has to be rasterized, under its own key.
pub proof fn law_only_new_glyphs_are_rasterized(m: CacheModel, key: GlyphKey, x: i32, y: i32)
    ensures
        step_for(m, key, x, y) is Raster <==> !m.entries.dom().contains(key.word()),
        step_for(m, key, x, y) matches GlyphStep::Raster(k) ==> k == key,
        step_for(m, key, x, y) matches GlyphStep::Draw(q) ==> quad_of(
            pixel_of(x),
            pixel_of(y),
            m.entries[key.word()].glyph,
        ) == Some(q),
        step_for(m, key, x, y) is Blank ==> {
            let g = m.entries[key.word()].glyph;
            g.w == 0 || g.h == 0
        },
{
}

/// A bitmap that found a place is cached with its own size and offset, and its
/// pixels are on the page where the glyph says; one without area needs no
/// place. Where it found none, nothing is left that could go.
pub proof fn law_landed_glyphs_tell_their_place(
    cache: CacheModel,
    cache_after: CacheModel,
    atlas: AtlasModel,
    atlas_after: AtlasModel,
    r: Rastered,
    out: Option<CachedGlyph>,
    i: int,
    j: int,
)
    requires
        landed(cache, cache_after, atlas, atlas_after, r, out),
        0 <= i < r.height,
        0 <= j < r.width * (if r.color {
            4int
        } else {
            1int
        }),
    ensures
        out matches Some(g) ==> {
            let bpp: int = if r.color {
                4
            } else {
                1
            };
            &&& g.alloc is Some
            &&& g.w == r.width && g.h == r.height && g.color == r.color
            &&& -0x8000 <= r.left < 0x8000 ==> g.left == r.left
            &&& -0x8000 <= r.top < 0x8000 ==> g.top == r.top
            &&& atlas_after.pages(r.color)[g.page as int].data[(g.y + i) * (atlas.side * bpp) + (g.x
                * bpp + j)] == r.data@[i * (r.width * bpp) + j]
        },
        out is None ==> forall|k: u128|
            cache_after.entries.dom().contains(k) && cache_after.entries[k].glyph.color == r.color
                ==> #[trigger] cache_after.entries[k].last_used >= cache_after.tick,
{
    assert(r.width > 0) by (nonlinear_arith)
        requires
            0 <= j < r.width * (if r.color {
                4int
            } else {
                1int
            }),
            r.width >= 0,
    ;
    let (l, t) = (r.left, r.top);
    assert(-0x8000 <= l < 0x8000 ==> l as i16 == l) by (bit_vector);
    assert(-0x8000 <= t < 0x8000 ==> t as i16 == t) by (bit_vector);
    if out is None {
        assert forall|k: u128|
            cache_after.entries.dom().contains(k) && cache_after.entries[k].glyph.color
                == r.color implies #[trigger] cache_after.entries[k].last_used
            >= cache_after.tick by {
            assert(!cache_after.evictable(k, r.color));
        }
    }
}

/// A glyph without area takes no place and is not drawn; nothing changes for
/// it.
pub proof fn law_blank_glyphs_take_no_place(
    cache: CacheModel,
    cache_after: CacheModel,
    atlas: AtlasModel,
    atlas_after: AtlasModel,
    r: Rastered,
    out: Option<CachedGlyph>,
    x: i32,
    y: i32,
)
    requires
        landed(cache, cache_after, atlas, atlas_after, r, out),
        r.width == 0 || r.height == 0,
    ensures
        cache_after == cache && atlas_after == atlas,
        out is Some && out.unwrap().alloc is None,
        out_quad(x, y, out) is None,
{
}

/// An installed glyph is drawn where its run has it, and is under its key from
/// then on; one that found no place is neither.
pub proof fn law_installed_glyphs_are_drawn(
    m: CacheModel,
    key: GlyphKey,
    g: CachedGlyph,
    x: i32,
    y: i32,
)
    ensures
        kept(m, key, Some(g)) == m.with_glyph(key.word(), g),
        kept(m, key, None) == m,
        out_quad(x, y, Some(g)) == quad_of(pixel_of(x), pixel_of(y), g),
        out_quad(x, y, None) is None,
        out_quad(x, y, Some(g)) matches Some(q) ==> step_for(
            kept(m, key, Some(g)),
            key,
            x,
            y,
        ) == GlyphStep::Draw(q),
{
}

/// A page is certain to have numbers for a slot more while twice the most
/// slots that it ever held, with one number for each eight pixels of its side
/// and three more, are no more than 65535.
pub proof fn law_light_pages(p: PageModel, side: int)
    requires
        0 <= side,
    ensures
        p.light(side) <==> 2 * p.most + side / 8 + 3 <= 65535,
        p.numbered() <==> p.numbers <= 65533,
{
}

/// Where there is room for a bitmap nothing goes for it: neither where a page
/// has room, nor where a page can be added.
pub proof fn law_nothing_goes_while_there_is_room(
    cache: CacheModel,
    cache_after: CacheModel,
    atlas: AtlasModel,
    atlas_after: AtlasModel,
    r: Rastered,
    out: Option<CachedGlyph>,
    i: int,
)
    requires
        landed(cache, cache_after, atlas, atlas_after, r, out),
        r.width > 0 && r.height > 0,
    ensures
        0 <= i < atlas.pages(r.color).len() && atlas.pages(r.color)[i].room.contains(
            (r.width + 2, r.height + 2),
        ) ==> out is Some && cache_after == cache,
        atlas.pages(r.color).len() < atlas.cap(r.color) && r.width + 2 <= atlas.side && r.height
            + 2 <= atlas.side ==> out is Some && cache_after == cache,
{
    if 0 <= i < atlas.pages(r.color).len() && atlas.pages(r.color)[i].room.contains(
        (r.width + 2, r.height + 2),
    ) {
        assert(atlas.pages(r.color)[i].room_for(r.width as int, r.height as int));
    }
}

/// What goes for a bitmap is of its set and was not used on this frame, and
/// nothing that stays and could go was used before it.
pub proof fn law_what_goes_is_oldest(
    cache: CacheModel,
    cache_after: CacheModel,
    atlas: AtlasModel,
    atlas_after: AtlasModel,
    r: Rastered,
    out: Option<CachedGlyph>,
    gone: u128,
    left: u128,
)
    requires
        landed(cache, cache_after, atlas, atlas_after, r, out),
        cache.entries.dom().contains(gone),
        !cache_after.entries.dom().contains(gone),
    ensures
        cache.entries[gone].glyph.color == r.color,
        cache.entries[gone].last_used < cache.tick,
        cache_after.entries.dom().contains(left) ==> cache_after.entries[left]
            == cache.entries[left],
        cache_after.entries.dom().contains(left) && cache_after.entries[left].glyph.color == r.color
            && cache_after.entries[left].last_used < cache.tick ==> cache.entries[gone].last_used
            <= cache_after.entries[left].last_used,
{
    assert(cache.evictable(gone, r.color));
    if cache_after.entries.dom().contains(left) && cache_after.entries[left].glyph.color == r.color
        && cache_after.entries[left].last_used < cache.tick {
        assert(cache_after.evictable(left, r.color));
    }
}

} // verus!
