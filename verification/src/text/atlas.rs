//! Glyph atlas: packed pages mirrored on the CPU, with the regions that the
//! GPU copy still lacks.
//!
//! Two page sets: one byte per pixel for monochrome glyphs, four for color
//! bitmaps. Pages grow on demand up to a cap; at the cap the caller evicts
//! least-recently-used cache entries and retries.

use crate::geom::RectPx;
use vstd::prelude::*;

verus! {

pub const ATLAS_PAGE_SIZE: u32 = 2048;

/// Glyph bitmaps get a gutter of one pixel, so that linear filtering never
/// bleeds.
pub const GUTTER: u32 = 1;

/// Page caps: 4 alpha pages are 16 MB, 2 color pages 32 MB.
pub const MAX_ALPHA_PAGES: usize = 4;

pub const MAX_COLOR_PAGES: usize = 2;

/// Greatest page side: the bytes of a color page are counted in 32 bits.
pub const MAX_PAGE_SIZE: u32 = 32767;

/// Numbers that an allocator has for its cells, used and free: it counts them
/// with 16 bits, and the last number stands for none.
pub const MAX_NUMBERS: u32 = 65535;

// ---------------------------------------------------------------- the allocator

/// A shelf-packing rectangle allocator.
#[verifier::external_type_specification]
#[verifier::external_body]
pub struct ExAtlasAllocator(etagere::AtlasAllocator);

/// The rectangles that an allocator has given out and not got back, by
/// allocation id: left, top, right and bottom edge.
pub uninterp spec fn atlas_cells(a: etagere::AtlasAllocator) -> Map<u32, (int, int, int, int)>;

/// The side of the square that an allocator was made for.
pub uninterp spec fn atlas_side(a: etagere::AtlasAllocator) -> int;

/// The sizes, as width and height, that an allocator has room for.
pub uninterp spec fn atlas_room(a: etagere::AtlasAllocator) -> Set<(int, int)>;

/// By allocation id, the sizes that the place of a rectangle takes again once
/// it is given back.
pub uninterp spec fn atlas_refits(a: etagere::AtlasAllocator) -> Map<u32, Set<(int, int)>>;

/// The numbers that an allocator has handed to its cells so far, used and free.
/// A number that a cell gave back is handed out again first.
pub uninterp spec fn atlas_numbers(a: etagere::AtlasAllocator) -> int;

/// The numbers that an allocator needs at most for `slots` rectangles at once:
/// a free cell lies beside each, and one more on each shelf, and a shelf is
/// the only one or at least 8 pixels high.
pub open spec fn numbers_for(side: int, slots: int) -> int {
    2 * slots + side / 8 + 1
}

/// `etagere::AtlasAllocator::new` on a square. Claimed of it: nothing is
/// given out yet, there is one free cell, and there is room for every size up
/// to the side. It panics on a side that is zero, or whose square does not fit
/// 31 bits.
#[verifier::external_body]
fn new_allocator(side: u32) -> (a: etagere::AtlasAllocator)
    requires
        0 < side <= 46340,
    ensures
        atlas_side(a) == side,
        atlas_cells(a) == no_cells(),
        atlas_numbers(a) == 1,
        atlas_refits(a) == no_refits(),
        atlas_room(a) == whole_room(side as int),
{
    etagere::AtlasAllocator::new(etagere::size2(side as i32, side as i32))
}

/// `etagere::AtlasAllocator::allocate`, with the id as its serialized word.
/// Claimed of it: on success one rectangle more is given out, under an id
/// that was not in use, at least as large as asked for, inside the square,
/// and apart from every other, and its place takes the size again once it is
/// given back; on failure nothing changes. It succeeds exactly on the sizes
/// that it has room for: never where an edge is zero or longer than the side,
/// and always otherwise where nothing is given out. A success takes two new
/// numbers at most, for what is left of a cell and of a shelf, and none as long
/// as there are numbers given back. Which place it picks, and what room that
/// leaves, is not claimed. It counts on where its numbers run out, and its
/// cells then share them.
#[verifier::external_body]
fn allocate(a: &mut etagere::AtlasAllocator, w: u32, h: u32) -> (r: Option<
    (u32, u32, u32, u32, u32),
>)
    requires
        w <= 0x7FFF_FFFF,
        h <= 0x7FFF_FFFF,
        atlas_cells(*old(a)).dom().finite(),
        atlas_room(*old(a)).contains((w as int, h as int)) ==> atlas_numbers(*old(a)) + 2
            <= MAX_NUMBERS,
    ensures
        atlas_side(*final(a)) == atlas_side(*old(a)),
        match r {
            Some((id, x0, y0, x1, y1)) => {
                &&& !atlas_cells(*old(a)).dom().contains(id)
                &&& atlas_cells(*final(a)) == atlas_cells(*old(a)).insert(
                    id,
                    (x0 as int, y0 as int, x1 as int, y1 as int),
                )
                &&& x0 + w <= x1 <= atlas_side(*old(a))
                &&& y0 + h <= y1 <= atlas_side(*old(a))
                &&& forall|k: u32| #[trigger]
                    atlas_cells(*old(a)).dom().contains(k) ==> apart(
                        atlas_cells(*old(a))[k],
                        (x0 as int, y0 as int, x1 as int, y1 as int),
                    )
                &&& atlas_refits(*final(a)) == atlas_refits(*old(a)).insert(
                    id,
                    atlas_refits(*final(a))[id],
                )
                &&& atlas_refits(*final(a))[id].contains((w as int, h as int))
                &&& atlas_cells(*final(a)).len() <= atlas_numbers(*final(a))
                &&& atlas_numbers(*old(a)) <= atlas_numbers(*final(a)) <= atlas_numbers(*old(a)) + 2
                &&& atlas_numbers(*final(a)) == atlas_numbers(*old(a)) || atlas_numbers(*final(a))
                    <= numbers_for(atlas_side(*old(a)), atlas_cells(*final(a)).len() as int)
            },
            None => *final(a) == *old(a),
        },
        r is Some <==> atlas_room(*old(a)).contains((w as int, h as int)),
        (w == 0 || h == 0 || w > atlas_side(*old(a)) || h > atlas_side(*old(a))) ==> r is None,
        (0 < w <= atlas_side(*old(a)) && 0 < h <= atlas_side(*old(a)) && atlas_cells(
            *old(a),
        ).dom() == Set::<u32>::empty()) ==> r is Some,
{
    let got = a.allocate(etagere::size2(w as i32, h as i32))?;
    let b = got.rectangle;
    Some((got.id.serialize(), b.min.x as u32, b.min.y as u32, b.max.x as u32, b.max.y as u32))
}

/// `etagere::AtlasAllocator::deallocate`. Claimed of it: the rectangle is no
/// longer given out, and the others are; no number is taken; there is room for
/// what there was room for, and for what the place of the rectangle takes. It
/// panics on an id that is not in use.
#[verifier::external_body]
fn deallocate(a: &mut etagere::AtlasAllocator, id: u32)
    requires
        atlas_cells(*old(a)).dom().contains(id),
    ensures
        atlas_side(*final(a)) == atlas_side(*old(a)),
        atlas_cells(*final(a)) == atlas_cells(*old(a)).remove(id),
        atlas_refits(*final(a)) == atlas_refits(*old(a)).remove(id),
        atlas_numbers(*final(a)) == atlas_numbers(*old(a)),
        atlas_room(*old(a)).subset_of(atlas_room(*final(a))),
        atlas_refits(*old(a))[id].subset_of(atlas_room(*final(a))),
{
    a.deallocate(etagere::AllocId::deserialize(id));
}

/// Nothing given out.
pub open spec fn no_cells() -> Map<u32, (int, int, int, int)> {
    Map::empty()
}

/// No places to give back.
pub open spec fn no_refits() -> Map<u32, Set<(int, int)>> {
    Map::empty()
}

/// Every size that an empty square has room for.
pub open spec fn whole_room(side: int) -> Set<(int, int)> {
    Set::new(|s: (int, int)| 0 < s.0 <= side && 0 < s.1 <= side)
}

/// Two rectangles share no pixel.
pub open spec fn apart(a: (int, int, int, int), b: (int, int, int, int)) -> bool {
    a.2 <= b.0 || b.2 <= a.0 || a.3 <= b.1 || b.3 <= a.1
}

// ------------------------------------------------------------------------ pages

#[derive(Clone, Copy, Debug, PartialEq, Eq, Structural)]
pub struct AtlasStats {
    pub alpha_pages: u32,
    pub color_pages: u32,
    pub allocations: u64,
    /// Slots returned to an allocator for reuse by other glyphs.
    pub evictions: u64,
}

struct Page {
    alloc: etagere::AtlasAllocator,
    /// Number of slots in use.
    slots: u32,
    /// The greatest number that it ever had.
    most: u32,
    /// Page contents.
    data: Vec<u8>,
    dirty: Option<RectPx>,
    /// Union of everything ever written: what a fresh texture must get.
    /// Never cleared.
    used: Option<RectPx>,
}

/// What a page holds.
#[verifier::ext_equal]
pub struct PageModel {
    /// Slots in use, gutter included, by allocation id.
    pub cells: Map<u32, (int, int, int, int)>,
    /// Sizes, gutter included, that there is room for.
    pub room: Set<(int, int)>,
    /// By allocation id, the sizes that a slot takes again once it is given
    /// back.
    pub refits: Map<u32, Set<(int, int)>>,
    /// Numbers that the allocator has handed out.
    pub numbers: int,
    /// The most slots that were in use at once.
    pub most: int,
    pub data: Seq<u8>,
    pub dirty: Option<RectPx>,
    pub used: Option<RectPx>,
}

impl PageModel {
    /// A page with nothing on it.
    pub open spec fn blank(side: int, bpp: int) -> PageModel {
        PageModel {
            cells: Map::empty(),
            room: whole_room(side),
            refits: Map::empty(),
            numbers: 1,
            most: 0,
            data: Seq::new((side * side * bpp) as nat, |i: int| 0u8),
            dirty: None,
            used: None,
        }
    }

    /// Slots lie on the page, apart from each other, and regions lie on the
    /// page.
    pub open spec fn wf(self, side: int, bpp: int) -> bool {
        &&& self.cells.dom().finite()
        &&& self.cells.len() <= self.most <= self.numbers
        &&& self.numbers <= MAX_NUMBERS
        &&& self.numbers <= numbers_for(side, self.most)
        &&& self.data.len() == side * side * bpp
        &&& lies_on(self.dirty, side)
        &&& lies_on(self.used, side)
        &&& forall|k: u32| #[trigger]
            self.cells.dom().contains(k) ==> {
                let c = self.cells[k];
                0 <= c.0 <= c.2 <= side && 0 <= c.1 <= c.3 <= side
            }
        &&& forall|j: u32, k: u32|
            #![trigger self.cells.dom().contains(j), self.cells.dom().contains(k)]
            self.cells.dom().contains(j) && self.cells.dom().contains(k) && j != k ==> apart(
                self.cells[j],
                self.cells[k],
            )
    }

    /// True of a bitmap that the page has room for, gutter included.
    pub open spec fn room_for(self, w: int, h: int) -> bool {
        self.room.contains((w + 2 * GUTTER, h + 2 * GUTTER))
    }

    /// True of a page that can take a slot: two numbers are left.
    pub open spec fn numbered(self) -> bool {
        self.numbers + 2 <= MAX_NUMBERS
    }

    /// True of a page that never held so many slots that its numbers could
    /// have run out.
    pub open spec fn light(self, side: int) -> bool {
        numbers_for(side, self.most) + 2 <= MAX_NUMBERS
    }

    /// Byte `c` of row `r`.
    pub open spec fn at(self, stride: int, r: int, c: int) -> u8 {
        self.data[r * stride + c]
    }
}

/// A region, if there is one, lies on a page.
pub open spec fn lies_on(region: Option<RectPx>, side: int) -> bool {
    region matches Some(r) ==> r.min_x <= r.max_x <= side && r.min_y <= r.max_y <= side
}

/// A region grown by a rectangle.
pub open spec fn grown(region: Option<RectPx>, rect: RectPx) -> Option<RectPx> {
    match region {
        Some(r) => Some(r.joined(rect)),
        None => Some(rect),
    }
}

/// Page bytes after a bitmap of `w` by `h` pixels was written at (x, y):
/// row by row the bitmap inside, the old bytes outside.
pub open spec fn blitted(
    before: Seq<u8>,
    after: Seq<u8>,
    side: int,
    bpp: int,
    x: int,
    y: int,
    w: int,
    h: int,
    src: Seq<u8>,
) -> bool {
    let stride = side * bpp;
    &&& after.len() == before.len()
    &&& forall|r: int, c: int|
        #![trigger after[r * stride + c]]
        0 <= r < side && 0 <= c < stride ==> after[r * stride + c] == (if y <= r < y + h && x * bpp
            <= c < (x + w) * bpp {
            src[(r - y) * (w * bpp) + (c - x * bpp)]
        } else {
            before[r * stride + c]
        })
}

/// The byte of row `r` and column `c` is on the page, and no other's.
proof fn lemma_cell(side: int, stride: int, r: int, c: int)
    by (nonlinear_arith)
    requires
        0 <= r < side,
        0 <= c < stride,
    ensures
        0 <= r * stride + c < side * stride,
{
}

proof fn lemma_cell_unique(stride: int, r: int, c: int, s: int, d: int)
    requires
        0 <= c < stride,
        0 <= d < stride,
        r * stride + c == s * stride + d,
    ensures
        r == s,
        c == d,
{
    if r < s {
        assert((s - r) * stride >= stride) by (nonlinear_arith)
            requires
                s - r >= 1,
                stride > 0,
        ;
        assert((s - r) * stride == s * stride - r * stride) by (nonlinear_arith);
    } else if r > s {
        assert((r - s) * stride >= stride) by (nonlinear_arith)
            requires
                r - s >= 1,
                stride > 0,
        ;
        assert((r - s) * stride == r * stride - s * stride) by (nonlinear_arith);
    }
}

impl Page {
    spec fn model(&self) -> PageModel {
        PageModel {
            cells: atlas_cells(self.alloc),
            room: atlas_room(self.alloc),
            refits: atlas_refits(self.alloc),
            numbers: atlas_numbers(self.alloc),
            most: self.most as int,
            data: self.data@,
            dirty: self.dirty,
            used: self.used,
        }
    }

    spec fn wf(&self, side: int, bpp: int) -> bool {
        &&& atlas_side(self.alloc) == side
        &&& self.model().wf(side, bpp)
        &&& self.slots == self.model().cells.len()
    }

    fn new(side: u32, bpp: u32) -> (p: Page)
        requires
            0 < side <= MAX_PAGE_SIZE,
            bpp == 1 || bpp == 4,
        ensures
            p.wf(side as int, bpp as int),
            p.model() == PageModel::blank(side as int, bpp as int),
    {
        assert(side * side <= 32767 * 32767) by (nonlinear_arith)
            requires
                0 < side <= 32767,
        ;
        let area: u32 = side * side;
        assert(area * bpp <= 32767 * 32767 * 4) by (nonlinear_arith)
            requires
                area <= 32767 * 32767,
                bpp <= 4,
        ;
        let n: usize = (area * bpp) as usize;
        let mut data: Vec<u8> = Vec::new();
        let mut i: usize = 0;
        while i < n
            invariant
                i <= n,
                data@.len() == i,
                forall|k: int| 0 <= k < i ==> data@[k] == 0,
            decreases n - i,
        {
            data.push(0);
            i = i + 1;
        }
        let p = Page { alloc: new_allocator(side), slots: 0, most: 0, data, dirty: None, used: None };
        proof {
            assert(p.model() =~= PageModel::blank(side as int, bpp as int));
        }
        p
    }
}

/// Writes a bitmap of `w` by `h` pixels at (x, y) and notes the region.
fn blit(page: &mut Page, side: u32, bpp: u32, x: u32, y: u32, w: u32, h: u32, src: &[u8])
    requires
        0 < side <= MAX_PAGE_SIZE,
        bpp == 1 || bpp == 4,
        old(page).wf(side as int, bpp as int),
        x + w <= side,
        y + h <= side,
        src@.len() >= w * h * bpp,
    ensures
        final(page).wf(side as int, bpp as int),
        final(page).model().cells == old(page).model().cells,
        final(page).model().room == old(page).model().room,
        final(page).model().refits == old(page).model().refits,
        final(page).model().numbers == old(page).model().numbers,
        final(page).model().most == old(page).model().most,
        blitted(
            old(page).model().data,
            final(page).model().data,
            side as int,
            bpp as int,
            x as int,
            y as int,
            w as int,
            h as int,
            src@,
        ),
        final(page).model().dirty == grown(
            old(page).model().dirty,
            RectPx { min_x: x, min_y: y, max_x: (x + w) as u32, max_y: (y + h) as u32 },
        ),
        final(page).model().used == grown(
            old(page).model().used,
            RectPx { min_x: x, min_y: y, max_x: (x + w) as u32, max_y: (y + h) as u32 },
        ),
{
    let ghost before = page.data@;
    let ghost sd = side as int;
    let ghost st = side * bpp;
    let ghost lo = x * bpp;
    let ghost rb = w * bpp;
    assert(side * bpp <= 32767 * 4) by (nonlinear_arith)
        requires
            side <= 32767,
            bpp <= 4,
    ;
    assert(x * bpp + w * bpp <= side * bpp && w * bpp <= side * bpp && x * bpp <= side * bpp)
        by (nonlinear_arith)
        requires
            x + w <= side,
            0 <= bpp,
            0 <= x,
            0 <= w,
    ;
    assert(side * side * bpp == sd * st) by (nonlinear_arith)
        requires
            sd == side,
            st == side * bpp,
    ;
    assert((x + w) * bpp == x * bpp + w * bpp) by (nonlinear_arith);
    let stride: usize = (side * bpp) as usize;
    let row_bytes: usize = (w * bpp) as usize;
    let left: usize = (x * bpp) as usize;
    let page_len: usize = page.data.len();
    let src_len: usize = src.len();
    let mut row: u32 = 0;
    while row < h
        invariant
            row <= h,
            0 < side <= MAX_PAGE_SIZE,
            sd == side,
            st == stride,
            rb == row_bytes,
            lo == left,
            lo + rb <= st,
            st <= 32767 * 4,
            sd * st == side * side * bpp,
            x + w <= side,
            y + h <= side,
            rb == w * bpp,
            src@.len() >= w * h * bpp,
            before.len() == sd * st,
            page.data@.len() == sd * st,
            page_len == sd * st,
            src_len == src@.len(),
            page.alloc == old(page).alloc,
            page.slots == old(page).slots,
            page.most == old(page).most,
            page.dirty == old(page).dirty,
            page.used == old(page).used,
            forall|r: int, c: int|
                #![trigger page.data@[r * st + c]]
                0 <= r < sd && 0 <= c < st ==> page.data@[r * st + c] == (if y <= r < y + row && lo
                    <= c < lo + rb {
                    src@[(r - y) * rb + (c - lo)]
                } else {
                    before[r * st + c]
                }),
        decreases h - row,
    {
        let ghost rr = (y + row) as int;
        let ghost now = page.data@;
        assert(rr * st + st <= sd * st && sd * st <= 32767 * (32767 * 4)) by (nonlinear_arith)
            requires
                0 <= rr < sd,
                0 <= st <= 32767 * 4,
                sd <= 32767,
        ;
        assert((row + 1) * rb <= h * rb && h * rb == w * h * bpp) by (nonlinear_arith)
            requires
                row < h,
                rb == w * bpp,
                0 <= rb,
        ;
        assert((row + 1) * rb == row * rb + rb) by (nonlinear_arith);
        assert(0 <= row * rb && 0 <= rr * st) by (nonlinear_arith)
            requires
                0 <= rb,
                0 <= row,
                0 <= rr,
                0 <= st,
        ;
        let dst: usize = (y + row) as usize * stride + left;
        let from: usize = row as usize * row_bytes;
        let mut k: usize = 0;
        while k < row_bytes
            invariant
                k <= row_bytes,
                rr == y + row,
                0 <= rr < sd,
                dst == rr * st + lo,
                from == row * rb,
                rb == row_bytes,
                lo + rb <= st,
                0 <= lo,
                rr * st + st <= sd * st,
                from + row_bytes <= src_len,
                src_len == src@.len(),
                page_len == sd * st,
                page.data@.len() == sd * st,
                now.len() == sd * st,
                page.alloc == old(page).alloc,
                page.slots == old(page).slots,
            page.most == old(page).most,
                page.dirty == old(page).dirty,
                page.used == old(page).used,
                forall|i: int|
                    0 <= i < sd * st ==> #[trigger] page.data@[i] == (if dst <= i < dst + k {
                        src@[from + (i - dst)]
                    } else {
                        now[i]
                    }),
            decreases row_bytes - k,
        {
            page.data.set(dst + k, src[from + k]);
            k = k + 1;
        }
        proof {
            assert forall|r: int, c: int|
                #![trigger page.data@[r * st + c]]
                0 <= r < sd && 0 <= c < st implies page.data@[r * st + c] == (if y <= r < y + row
                + 1 && lo <= c < lo + rb {
                src@[(r - y) * rb + (c - lo)]
            } else {
                before[r * st + c]
            }) by {
                let i = r * st + c;
                lemma_cell(sd, st, r, c);
                if dst <= i < dst + row_bytes {
                    let d = i - rr * st;
                    assert(lo <= d < lo + rb);
                    lemma_cell_unique(st, r, c, rr, d);
                    assert(r == rr && c == d);
                    assert((r - y) * rb == row * rb);
                } else {
                    if r == rr {
                        assert(!(lo <= c < lo + rb));
                    }
                    assert(page.data@[i] == now[i]);
                }
            }
        }
        row = row + 1;
    }
    let rect: RectPx = RectPx::new(x, y, x + w, y + h);
    let dirty: RectPx = match page.dirty {
        Some(mut d) => {
            d.union(rect);
            d
        },
        None => rect,
    };
    let used: RectPx = match page.used {
        Some(mut u) => {
            u.union(rect);
            u
        },
        None => rect,
    };
    page.dirty = Some(dirty);
    page.used = Some(used);
    proof {
        assert(blitted(
            before,
            page.data@,
            side as int,
            bpp as int,
            x as int,
            y as int,
            w as int,
            h as int,
            src@,
        )) by {
            assert forall|r: int, c: int|
                #![trigger page.data@[r * st + c]]
                0 <= r < sd && 0 <= c < st implies page.data@[r * st + c] == (if y <= r < y + h && x
                * bpp <= c < (x + w) * bpp {
                src@[(r - y) * (w * bpp) + (c - x * bpp)]
            } else {
                before[r * st + c]
            }) by {}
        }
    }
}

// -------------------------------------------------------------------- the atlas

/// Where a bitmap landed.
#[derive(Clone, Copy, Debug, PartialEq, Eq, Structural)]
pub struct AtlasSlot {
    /// Allocation id, needed to free the slot.
    pub alloc: u32,
    pub page: u16,
    pub x: u16,
    pub y: u16,
}

pub struct GlyphAtlas {
    page_size: u32,
    max_alpha: usize,
    max_color: usize,
    alpha: Vec<Page>,
    color: Vec<Page>,
    pub stats: AtlasStats,
}

/// What an atlas holds.
#[verifier::ext_equal]
pub struct AtlasModel {
    pub side: int,
    pub max_alpha: int,
    pub max_color: int,
    pub alpha: Seq<PageModel>,
    pub color: Seq<PageModel>,
    pub stats: AtlasStats,
}

spec fn page_models(pages: Seq<Page>) -> Seq<PageModel> {
    Seq::new(pages.len(), |i: int| pages[i].model())
}

/// The bitmap of a slot was written: one page has the slot, its bytes and
/// its regions, and the other pages are as before. The page may be a new
/// one.
pub open spec fn wrote(
    before: Seq<PageModel>,
    after: Seq<PageModel>,
    side: int,
    bpp: int,
    slot: AtlasSlot,
    w: int,
    h: int,
    src: Seq<u8>,
) -> bool {
    let p = slot.page as int;
    let base = if p < before.len() {
        before
    } else {
        before.push(PageModel::blank(side, bpp))
    };
    let cell = after[p].cells[slot.alloc];
    let rect = RectPx {
        min_x: slot.x as u32,
        min_y: slot.y as u32,
        max_x: (slot.x + w) as u32,
        max_y: (slot.y + h) as u32,
    };
    &&& p < base.len()
    &&& after.len() == base.len()
    &&& forall|i: int| 0 <= i < base.len() && i != p ==> #[trigger] after[i] == base[i]
    &&& !base[p].cells.dom().contains(slot.alloc)
    &&& after[p].cells == base[p].cells.insert(slot.alloc, cell)
    &&& after[p].refits == base[p].refits.insert(slot.alloc, after[p].refits[slot.alloc])
    &&& after[p].refits[slot.alloc].contains((w + 2 * GUTTER, h + 2 * GUTTER))
    &&& base[p].numbers <= after[p].numbers <= base[p].numbers + 2
    &&& after[p].most == greater(base[p].most, after[p].cells.len() as int)
    &&& cell.0 + GUTTER == slot.x && slot.x + w + GUTTER <= cell.2
    &&& cell.1 + GUTTER == slot.y && slot.y + h + GUTTER <= cell.3
    &&& blitted(
        base[p].data,
        after[p].data,
        side,
        bpp,
        slot.x as int,
        slot.y as int,
        w,
        h,
        src,
    )
    &&& after[p].dirty == grown(base[p].dirty, rect)
    &&& after[p].used == grown(base[p].used, rect)
}

/// True of a bitmap that a page can hold, gutter included.
pub open spec fn fits(side: int, w: int, h: int) -> bool {
    w + 2 * GUTTER <= side && h + 2 * GUTTER <= side
}

pub open spec fn greater(a: int, b: int) -> int {
    if a < b {
        b
    } else {
        a
    }
}

/// None of the first `k` pages has room for a bitmap.
pub open spec fn crowded(pages: Seq<PageModel>, k: int, w: int, h: int) -> bool {
    forall|i: int| 0 <= i < k ==> !(#[trigger] pages[i]).room_for(w, h)
}

/// The page that takes a bitmap, if it is there, has numbers left.
pub open spec fn numbered(pages: Seq<PageModel>, w: int, h: int) -> bool {
    forall|i: int|
        0 <= i < pages.len() && crowded(pages, i, w, h) && (#[trigger] pages[i]).room_for(w, h)
            ==> pages[i].numbered()
}

/// A set has room for a bitmap: on a page that is there, or on a page more.
pub open spec fn roomy(pages: Seq<PageModel>, side: int, cap: int, w: int, h: int) -> bool {
    !crowded(pages, pages.len() as int, w, h) || (pages.len() < cap && fits(side, w, h))
}

/// What a write leads to. The bitmap goes to the first page that has room for
/// it; where none has, to a new page, as long as the set is below its cap and
/// the bitmap fits a page. It is refused exactly where the set has no room:
/// then the pages are as before, but for a blank page more where the set was
/// below its cap.
pub open spec fn write_outcome(
    before: Seq<PageModel>,
    after: Seq<PageModel>,
    side: int,
    bpp: int,
    cap: int,
    slot: Option<AtlasSlot>,
    w: int,
    h: int,
    src: Seq<u8>,
) -> bool {
    &&& slot is Some <==> roomy(before, side, cap, w, h)
    &&& match slot {
        Some(s) => {
            &&& wrote(before, after, side, bpp, s, w, h, src)
            &&& fits(side, w, h)
            &&& if crowded(before, before.len() as int, w, h) {
                s.page == before.len()
            } else {
                s.page < before.len() && crowded(before, s.page as int, w, h)
                    && before[s.page as int].room_for(w, h)
            }
        },
        None => if before.len() >= cap {
            after == before
        } else {
            after == before.push(PageModel::blank(side, bpp))
        },
    }
}

impl AtlasModel {
    pub open spec fn fresh(side: int, max_alpha: int, max_color: int) -> AtlasModel {
        AtlasModel {
            side,
            max_alpha,
            max_color,
            alpha: Seq::empty(),
            color: Seq::empty(),
            stats: AtlasStats { alpha_pages: 0, color_pages: 0, allocations: 0, evictions: 0 },
        }
    }

    /// The pages of a set.
    pub open spec fn pages(self, color: bool) -> Seq<PageModel> {
        if color {
            self.color
        } else {
            self.alpha
        }
    }

    pub open spec fn cap(self, color: bool) -> int {
        if color {
            self.max_color
        } else {
            self.max_alpha
        }
    }

    pub open spec fn wf(self) -> bool {
        &&& 0 < self.side <= MAX_PAGE_SIZE
        &&& 0 <= self.max_alpha <= 0xFFFF
        &&& 0 <= self.max_color <= 0xFFFF
        &&& self.alpha.len() <= self.max_alpha
        &&& self.color.len() <= self.max_color
        &&& self.stats.alpha_pages == self.alpha.len()
        &&& self.stats.color_pages == self.color.len()
        &&& forall|i: int| 0 <= i < self.alpha.len() ==> (#[trigger] self.alpha[i]).wf(self.side, 1)
        &&& forall|i: int| 0 <= i < self.color.len() ==> (#[trigger] self.color[i]).wf(self.side, 4)
    }

    /// True of a slot that is in use.
    pub open spec fn holds(self, color: bool, page: u16, alloc: u32) -> bool {
        page < self.pages(color).len() && self.pages(color)[page as int].cells.dom().contains(alloc)
    }

    /// True of a slot that takes a bitmap of the size once it is given back.
    pub open spec fn takes_again(self, color: bool, page: u16, alloc: u32, w: int, h: int) -> bool {
        self.pages(color)[page as int].refits[alloc].contains((w + 2 * GUTTER, h + 2 * GUTTER))
    }

    /// Every page of a set has numbers left.
    pub open spec fn numbered(self, color: bool) -> bool {
        forall|i: int|
            0 <= i < self.pages(color).len() ==> (#[trigger] self.pages(color)[i]).numbered()
    }

    /// No page of a set ever held so many slots that its numbers could have
    /// run out.
    pub open spec fn light(self, color: bool) -> bool {
        forall|i: int|
            0 <= i < self.pages(color).len() ==> (#[trigger] self.pages(color)[i]).light(self.side)
    }

    /// A set has room for a bitmap.
    pub open spec fn has_room(self, color: bool, w: int, h: int) -> bool {
        roomy(self.pages(color), self.side, self.cap(color), w, h)
    }
}

/// A page whose slot was given back: it has room for what it had room for, and
/// for what the slot takes again.
pub open spec fn vacated(before: PageModel, after: PageModel, alloc: u32) -> bool {
    &&& after == (PageModel {
        cells: before.cells.remove(alloc),
        refits: before.refits.remove(alloc),
        room: after.room,
        ..before
    })
    &&& before.room.subset_of(after.room)
    &&& before.refits[alloc].subset_of(after.room)
}

/// An atlas whose slot was given back.
pub open spec fn gave_back(
    before: AtlasModel,
    after: AtlasModel,
    color: bool,
    page: u16,
    alloc: u32,
) -> bool {
    let p = page as int;
    let pages = after.pages(color);
    &&& pages == before.pages(color).update(p, pages[p])
    &&& vacated(before.pages(color)[p], pages[p], alloc)
    &&& after.pages(!color) == before.pages(!color)
    &&& after.side == before.side
    &&& after.max_alpha == before.max_alpha
    &&& after.max_color == before.max_color
    &&& after.stats == (AtlasStats {
        evictions: (before.stats.evictions + 1) as u64,
        ..before.stats
    })
}

/// Pages are clean.
pub open spec fn undirtied(before: Seq<PageModel>) -> Seq<PageModel> {
    Seq::new(before.len(), |i: int| PageModel { dirty: None, ..before[i] })
}

/// Finds room for a bitmap: on the first page that has it, or on a new page
/// where the set is below its cap. Gives the slot.
fn place(
    pages: &mut Vec<Page>,
    side: u32,
    bpp: u32,
    max_pages: usize,
    w: u32,
    h: u32,
) -> (r: Option<AtlasSlot>)
    requires
        0 < side <= MAX_PAGE_SIZE,
        bpp == 1 || bpp == 4,
        max_pages <= 0xFFFF,
        old(pages)@.len() <= max_pages,
        forall|i: int|
            0 <= i < old(pages)@.len() ==> (#[trigger] old(pages)@[i]).wf(side as int, bpp as int),
        w <= 0x7FFF_FFFD,
        h <= 0x7FFF_FFFD,
        numbered(page_models(old(pages)@), w as int, h as int),
    ensures
        final(pages)@.len() <= max_pages,
        forall|i: int|
            0 <= i < final(pages)@.len() ==> (#[trigger] final(pages)@[i]).wf(
                side as int,
                bpp as int,
            ),
        match r {
            Some(s) => {
                let p = s.page as int;
                let base = if p < old(pages)@.len() {
                    page_models(old(pages)@)
                } else {
                    page_models(old(pages)@).push(PageModel::blank(side as int, bpp as int))
                };
                let cell = final(pages)@[p].model().cells[s.alloc];
                &&& p < final(pages)@.len() == base.len()
                &&& p <= old(pages)@.len()
                &&& p >= old(pages)@.len() ==> old(pages)@.len() < max_pages
                &&& forall|i: int|
                    0 <= i < base.len() && i != p ==> #[trigger] final(pages)@[i].model()
                        == base[i]
                &&& !base[p].cells.dom().contains(s.alloc)
                &&& final(pages)@[p].model() == (PageModel {
                    cells: base[p].cells.insert(s.alloc, cell),
                    room: final(pages)@[p].model().room,
                    refits: base[p].refits.insert(
                        s.alloc,
                        final(pages)@[p].model().refits[s.alloc],
                    ),
                    numbers: final(pages)@[p].model().numbers,
                    most: greater(base[p].most, final(pages)@[p].model().cells.len() as int),
                    ..base[p]
                })
                &&& base[p].numbers <= final(pages)@[p].model().numbers <= base[p].numbers + 2
                &&& final(pages)@[p].model().refits[s.alloc].contains(
                    (w + 2 * GUTTER, h + 2 * GUTTER),
                )
                &&& crowded(page_models(old(pages)@), p, w as int, h as int)
                &&& p < old(pages)@.len() ==> page_models(old(pages)@)[p].room_for(
                    w as int,
                    h as int,
                )
                &&& cell.0 + GUTTER == s.x && s.x + w + GUTTER <= cell.2 <= side
                &&& cell.1 + GUTTER == s.y && s.y + h + GUTTER <= cell.3 <= side
                &&& fits(side as int, w as int, h as int)
            },
            None => {
                &&& page_models(final(pages)@) == (if old(pages)@.len() >= max_pages {
                    page_models(old(pages)@)
                } else {
                    page_models(old(pages)@).push(PageModel::blank(side as int, bpp as int))
                })
                &&& !roomy(
                    page_models(old(pages)@),
                    side as int,
                    max_pages as int,
                    w as int,
                    h as int,
                )
            },
        },
{
    let ghost models = page_models(pages@);
    let gw: u32 = w + 2 * GUTTER;
    let gh: u32 = h + 2 * GUTTER;
    let mut i: usize = 0;
    while i < pages.len()
        invariant
            i <= pages@.len(),
            page_models(pages@) == models,
            models == page_models(old(pages)@),
            gw == w + 2 * GUTTER,
            gh == h + 2 * GUTTER,
            gw <= 0x7FFF_FFFF,
            gh <= 0x7FFF_FFFF,
            0 < side <= MAX_PAGE_SIZE,
            bpp == 1 || bpp == 4,
            max_pages <= 0xFFFF,
            pages@.len() <= max_pages,
            pages@.len() == old(pages)@.len(),
            forall|k: int|
                0 <= k < pages@.len() ==> (#[trigger] pages@[k]).wf(side as int, bpp as int),
            crowded(models, i as int, w as int, h as int),
            numbered(models, w as int, h as int),
        decreases pages@.len() - i,
    {
        proof {
            assert(pages@[i as int].wf(side as int, bpp as int));
            assert(models[i as int] == pages@[i as int].model());
        }
        let ghost start = pages@;
        let ghost was = pages@[i as int];
        let got = allocate(&mut pages[i].alloc, gw, gh);
        if let Some((id, x0, y0, x1, y1)) = got {
            let slots: u32 = pages[i].slots + 1;
            let most: u32 = pages[i].most;
            pages[i].slots = slots;
            if most < slots {
                pages[i].most = slots;
            }
            proof {
                let p = pages@[i as int];
                assert(models[i as int] == was.model());
                lemma_cell_added(
                    was.model(),
                    p.model(),
                    side as int,
                    bpp as int,
                    id,
                    (x0 as int, y0 as int, x1 as int, y1 as int),
                );
                assert forall|k: int| 0 <= k < pages@.len() implies (#[trigger] pages@[k]).wf(
                    side as int,
                    bpp as int,
                ) by {
                    if k != i {
                        assert(pages@[k] == start[k]);
                    }
                }
                assert forall|k: int| 0 <= k < models.len() && k != i implies #[trigger] pages@[k].model()
                    == models[k] by {
                    assert(pages@[k] == start[k]);
                    assert(models[k] == start[k].model());
                }
            }
            return Some(
                AtlasSlot {
                    alloc: id,
                    page: i as u16,
                    x: (x0 + GUTTER) as u16,
                    y: (y0 + GUTTER) as u16,
                },
            );
        }
        proof {
            assert(pages@[i as int].model() =~= was.model());
            assert forall|k: int| 0 <= k < pages@.len() implies (#[trigger] pages@[k]).wf(
                side as int,
                bpp as int,
            ) && pages@[k].model() == start[k].model() by {
                if k != i {
                    assert(pages@[k] == start[k]);
                }
            }
            assert(page_models(pages@) =~= models) by {
                assert forall|k: int| 0 <= k < models.len() implies page_models(pages@)[k]
                    == models[k] by {
                    assert(pages@[k].model() == start[k].model());
                    assert(models[k] == page_models(start)[k]);
                }
            }
        }
        i = i + 1;
    }
    // No room anywhere: grow a page, unless the set is at its cap.
    if pages.len() >= max_pages {
        return None;
    }
    let ghost start = pages@;
    pages.push(Page::new(side, bpp));
    proof {
        assert forall|k: int| 0 <= k < pages@.len() implies (#[trigger] pages@[k]).wf(
            side as int,
            bpp as int,
        ) by {
            if k < start.len() {
                assert(pages@[k] == start[k]);
            }
        }
        assert(page_models(pages@) =~= models.push(PageModel::blank(side as int, bpp as int)));
    }
    let ghost grown_models = page_models(pages@);
    let ghost grown_pages = pages@;
    let last: usize = pages.len() - 1;
    let ghost was = pages@[last as int];
    let got = allocate(&mut pages[last].alloc, gw, gh);
    match got {
        Some((id, x0, y0, x1, y1)) => {
            pages[last].slots = 1;
            pages[last].most = 1;
            proof {
                let p = pages@[last as int];
                lemma_cell_added(
                    was.model(),
                    p.model(),
                    side as int,
                    bpp as int,
                    id,
                    (x0 as int, y0 as int, x1 as int, y1 as int),
                );
                assert forall|k: int| 0 <= k < pages@.len() implies (#[trigger] pages@[k]).wf(
                    side as int,
                    bpp as int,
                ) by {
                    if k != last {
                        assert(pages@[k] == grown_pages[k]);
                    }
                }
                assert forall|k: int| 0 <= k < grown_models.len() && k != last implies #[trigger] pages@[k].model()
                    == grown_models[k] by {
                    assert(pages@[k] == grown_pages[k]);
                }
                assert(grown_models[last as int] == was.model());
            }
            Some(
                AtlasSlot {
                    alloc: id,
                    page: last as u16,
                    x: (x0 + GUTTER) as u16,
                    y: (y0 + GUTTER) as u16,
                },
            )
        },
        None => {
            proof {
                assert(pages@[last as int].model() =~= was.model());
                assert forall|k: int| 0 <= k < pages@.len() implies (#[trigger] pages@[k]).wf(
                    side as int,
                    bpp as int,
                ) && pages@[k].model() == grown_pages[k].model() by {
                    if k != last {
                        assert(pages@[k] == grown_pages[k]);
                    }
                }
                assert(page_models(pages@) =~= grown_models) by {
                    assert forall|k: int| 0 <= k < grown_models.len() implies page_models(pages@)[k]
                        == grown_models[k] by {
                        assert(pages@[k].model() == grown_pages[k].model());
                    }
                }
            }
            None
        },
    }
}

/// A page with one slot more is sound.
proof fn lemma_cell_added(
    before: PageModel,
    after: PageModel,
    side: int,
    bpp: int,
    id: u32,
    cell: (int, int, int, int),
)
    requires
        before.wf(side, bpp),
        !before.cells.dom().contains(id),
        after.cells == before.cells.insert(id, cell),
        before.numbered(),
        after.cells.len() <= after.numbers,
        before.numbers <= after.numbers <= before.numbers + 2,
        after.numbers == before.numbers || after.numbers <= numbers_for(
            side,
            after.cells.len() as int,
        ),
        after.most == greater(before.most, after.cells.len() as int),
        after.data == before.data,
        after.dirty == before.dirty,
        after.used == before.used,
        0 <= cell.0 <= cell.2 <= side,
        0 <= cell.1 <= cell.3 <= side,
        forall|k: u32| #[trigger] before.cells.dom().contains(k) ==> apart(before.cells[k], cell),
    ensures
        after.wf(side, bpp),
        after.cells.len() == before.cells.len() + 1,
{
}

proof fn lemma_models(pages: Seq<Page>, side: int, bpp: int)
    requires
        forall|i: int| 0 <= i < pages.len() ==> (#[trigger] pages[i]).wf(side, bpp),
    ensures
        forall|i: int| 0 <= i < pages.len() ==> (#[trigger] page_models(pages)[i]).wf(side, bpp),
{
    assert forall|i: int| 0 <= i < pages.len() implies (#[trigger] page_models(pages)[i]).wf(
        side,
        bpp,
    ) by {
        assert(pages[i].wf(side, bpp));
    }
}

/// Finds room for a bitmap and writes it.
fn write(
    pages: &mut Vec<Page>,
    side: u32,
    bpp: u32,
    max_pages: usize,
    w: u32,
    h: u32,
    src: &[u8],
) -> (r: Option<AtlasSlot>)
    requires
        0 < side <= MAX_PAGE_SIZE,
        bpp == 1 || bpp == 4,
        max_pages <= 0xFFFF,
        old(pages)@.len() <= max_pages,
        forall|i: int|
            0 <= i < old(pages)@.len() ==> (#[trigger] old(pages)@[i]).wf(side as int, bpp as int),
        w <= 0x7FFF_FFFD,
        h <= 0x7FFF_FFFD,
        src@.len() >= w * h * bpp,
        numbered(page_models(old(pages)@), w as int, h as int),
    ensures
        final(pages)@.len() <= max_pages,
        forall|i: int|
            0 <= i < final(pages)@.len() ==> (#[trigger] final(pages)@[i]).wf(
                side as int,
                bpp as int,
            ),
        write_outcome(
            page_models(old(pages)@),
            page_models(final(pages)@),
            side as int,
            bpp as int,
            max_pages as int,
            r,
            w as int,
            h as int,
            src@,
        ),
{
    let ghost models = page_models(pages@);
    let slot: AtlasSlot = match place(pages, side, bpp, max_pages, w, h) {
        Some(slot) => slot,
        None => {
            return None;
        },
    };
    let p: usize = slot.page as usize;
    let ghost placed = pages@;
    blit(&mut pages[p], side, bpp, slot.x as u32, slot.y as u32, w, h, src);
    proof {
        let base = if p < models.len() {
            models
        } else {
            models.push(PageModel::blank(side as int, bpp as int))
        };
        let after = page_models(pages@);
        assert forall|k: int| 0 <= k < pages@.len() implies (#[trigger] pages@[k]).wf(
            side as int,
            bpp as int,
        ) by {
            if k != p {
                assert(pages@[k] == placed[k]);
            }
        }
        assert forall|k: int| 0 <= k < base.len() && k != p implies #[trigger] after[k] == base[k] by {
            assert(pages@[k] == placed[k]);
            assert(placed[k].model() == base[k]);
        }
        assert(after[p as int] == pages@[p as int].model());
    }
    Some(slot)
}

impl GlyphAtlas {
    pub closed spec fn model(&self) -> AtlasModel {
        AtlasModel {
            side: self.page_size as int,
            max_alpha: self.max_alpha as int,
            max_color: self.max_color as int,
            alpha: page_models(self.alpha@),
            color: page_models(self.color@),
            stats: self.stats,
        }
    }

    pub closed spec fn wf(&self) -> bool {
        &&& self.model().wf()
        &&& forall|i: int|
            0 <= i < self.alpha@.len() ==> (#[trigger] self.alpha@[i]).wf(
                self.page_size as int,
                1,
            )
        &&& forall|i: int|
            0 <= i < self.color@.len() ==> (#[trigger] self.color@[i]).wf(
                self.page_size as int,
                4,
            )
    }

    /// A sound atlas has sound pages.
    pub proof fn lemma_wf(&self)
        requires
            self.wf(),
        ensures
            self.model().wf(),
    {
    }

    pub fn new() -> (r: GlyphAtlas)
        ensures
            r.wf(),
            r.model() == AtlasModel::fresh(
                ATLAS_PAGE_SIZE as int,
                MAX_ALPHA_PAGES as int,
                MAX_COLOR_PAGES as int,
            ),
    {
        GlyphAtlas::for_test(ATLAS_PAGE_SIZE, MAX_ALPHA_PAGES, MAX_COLOR_PAGES)
    }

    /// An atlas with pages of another size, and other caps: a small one fills up
    /// soon.
    pub fn for_test(page_size: u32, max_alpha: usize, max_color: usize) -> (r: GlyphAtlas)
        requires
            0 < page_size <= MAX_PAGE_SIZE,
            max_alpha <= 0xFFFF,
            max_color <= 0xFFFF,
        ensures
            r.wf(),
            r.model() == AtlasModel::fresh(page_size as int, max_alpha as int, max_color as int),
    {
        let r = GlyphAtlas {
            page_size,
            max_alpha,
            max_color,
            alpha: Vec::new(),
            color: Vec::new(),
            stats: AtlasStats { alpha_pages: 0, color_pages: 0, allocations: 0, evictions: 0 },
        };
        proof {
            assert(r.model() =~= AtlasModel::fresh(
                page_size as int,
                max_alpha as int,
                max_color as int,
            ));
        }
        r
    }

    /// Allocates a rectangle in the alpha pages and writes its mask, one
    /// byte per pixel. `None` where every page is full and the set at its
    /// cap, or where the bitmap is larger than a page. The allocator of the
    /// page that takes it must have numbers left.
    pub fn write_alpha(&mut self, w: u32, h: u32, data: &[u8]) -> (r: Option<AtlasSlot>)
        requires
            old(self).wf(),
            old(self).model().stats.allocations < u64::MAX,
            w <= 0x7FFF_FFFD,
            h <= 0x7FFF_FFFD,
            data@.len() >= w * h,
            numbered(old(self).model().pages(false), w as int, h as int),
        ensures
            final(self).wf(),
            written(old(self).model(), final(self).model(), false, r, w as int, h as int, data@),
    {
        let ghost start = self.model();
        assert(w * h * 1 == w * h) by (nonlinear_arith);
        let slot = write(&mut self.alpha, self.page_size, 1, self.max_alpha, w, h, data);
        self.stats.alpha_pages = self.alpha.len() as u32;
        if slot.is_some() {
            self.stats.allocations = self.stats.allocations + 1;
        }
        proof {
            lemma_models(self.alpha@, self.page_size as int, 1);
            assert(self.model().color == start.color);
        }
        slot
    }

    /// Allocates a rectangle in the color pages and writes its pixels, four
    /// bytes each.
    pub fn write_color(&mut self, w: u32, h: u32, data: &[u8]) -> (r: Option<AtlasSlot>)
        requires
            old(self).wf(),
            old(self).model().stats.allocations < u64::MAX,
            w <= 0x7FFF_FFFD,
            h <= 0x7FFF_FFFD,
            data@.len() >= w * h * 4,
            numbered(old(self).model().pages(true), w as int, h as int),
        ensures
            final(self).wf(),
            written(old(self).model(), final(self).model(), true, r, w as int, h as int, data@),
    {
        let ghost start = self.model();
        let slot = write(&mut self.color, self.page_size, 4, self.max_color, w, h, data);
        self.stats.color_pages = self.color.len() as u32;
        if slot.is_some() {
            self.stats.allocations = self.stats.allocations + 1;
        }
        proof {
            lemma_models(self.color@, self.page_size as int, 4);
            assert(self.model().alpha == start.alpha);
        }
        slot
    }

    /// Side of a page in pixels.
    pub fn page_size(&self) -> (r: u32)
        ensures
            r == self.model().side,
    {
        self.page_size
    }

    pub fn alpha_pages(&self) -> (r: usize)
        ensures
            r == self.model().alpha.len(),
    {
        self.alpha.len()
    }

    pub fn color_pages(&self) -> (r: usize)
        ensures
            r == self.model().color.len(),
    {
        self.color.len()
    }

    /// Contents and dirty region of a page, for upload.
    pub fn page_bytes(&self, color: bool, page: usize) -> (r: (&[u8], Option<RectPx>))
        requires
            page < self.model().pages(color).len(),
        ensures
            r.0@ == self.model().pages(color)[page as int].data,
            r.1 == self.model().pages(color)[page as int].dirty,
    {
        let p = if color {
            &self.color[page]
        } else {
            &self.alpha[page]
        };
        (p.data.as_slice(), p.dirty)
    }

    /// Union of everything written on a page: what a fresh texture needs
    /// even where the page is clean.
    pub fn page_used(&self, color: bool, page: usize) -> (r: Option<RectPx>)
        requires
            page < self.model().pages(color).len(),
        ensures
            r == self.model().pages(color)[page as int].used,
    {
        if color {
            self.color[page].used
        } else {
            self.alpha[page].used
        }
    }

    /// Marks every page clean.
    pub fn clear_dirty(&mut self)
        requires
            old(self).wf(),
        ensures
            final(self).wf(),
            final(self).model() == (AtlasModel {
                alpha: undirtied(old(self).model().alpha),
                color: undirtied(old(self).model().color),
                ..old(self).model()
            }),
    {
        let ghost start = self.model();
        clean(&mut self.alpha, Ghost(self.page_size as int), Ghost(1));
        clean(&mut self.color, Ghost(self.page_size as int), Ghost(4));
        proof {
            lemma_models(self.alpha@, self.page_size as int, 1);
            lemma_models(self.color@, self.page_size as int, 4);
        }
    }

    /// True where no page of a set ever held so many slots that the numbers of
    /// its allocator could have run out.
    pub fn is_light(&self, color: bool) -> (r: bool)
        requires
            self.wf(),
        ensures
            r == self.model().light(color),
    {
        let pages: &Vec<Page> = if color {
            &self.color
        } else {
            &self.alpha
        };
        let mut i: usize = 0;
        while i < pages.len()
            invariant
                i <= pages@.len(),
                0 < self.page_size <= MAX_PAGE_SIZE,
                self.model().side == self.page_size,
                self.model().pages(color) == page_models(pages@),
                forall|k: int| 0 <= k < pages@.len() ==> (#[trigger] pages@[k]).most <= MAX_NUMBERS,
                forall|k: int| 0 <= k < i ==> (#[trigger] page_models(pages@)[k]).light(
                    self.page_size as int,
                ),
            decreases pages@.len() - i,
        {
            assert(page_models(pages@)[i as int] == pages@[i as int].model());
            assert(pages@[i as int].most <= MAX_NUMBERS);
            if 2 * pages[i].most + self.page_size / 8 + 3 > MAX_NUMBERS {
                return false;
            }
            i = i + 1;
        }
        true
    }

    /// Returns a slot's rectangle to its allocator. The pixels stay until
    /// another glyph is written over them.
    pub fn free(&mut self, color: bool, slot: AtlasSlot)
        requires
            old(self).wf(),
            old(self).model().holds(color, slot.page, slot.alloc),
            old(self).model().stats.evictions < u64::MAX,
        ensures
            final(self).wf(),
            gave_back(old(self).model(), final(self).model(), color, slot.page, slot.alloc),
    {
        let ghost start = self.model();
        if color {
            release(&mut self.color, slot, Ghost(self.page_size as int), Ghost(4));
        } else {
            release(&mut self.alpha, slot, Ghost(self.page_size as int), Ghost(1));
        }
        self.stats.evictions = self.stats.evictions + 1;
        proof {
            lemma_models(self.alpha@, self.page_size as int, 1);
            lemma_models(self.color@, self.page_size as int, 4);
            assert(gave_back(start, self.model(), color, slot.page, slot.alloc));
        }
    }
}

/// What a write makes of an atlas.
pub open spec fn written(
    before: AtlasModel,
    after: AtlasModel,
    color: bool,
    slot: Option<AtlasSlot>,
    w: int,
    h: int,
    src: Seq<u8>,
) -> bool {
    let bpp: int = if color {
        4
    } else {
        1
    };
    &&& write_outcome(
        before.pages(color),
        after.pages(color),
        before.side,
        bpp,
        before.cap(color),
        slot,
        w,
        h,
        src,
    )
    &&& after.pages(!color) == before.pages(!color)
    &&& after.side == before.side
    &&& after.max_alpha == before.max_alpha
    &&& after.max_color == before.max_color
    &&& after.stats.evictions == before.stats.evictions
    &&& after.stats.allocations == before.stats.allocations + (if slot is Some {
        1int
    } else {
        0
    })
}

fn clean(pages: &mut Vec<Page>, side: Ghost<int>, bpp: Ghost<int>)
    requires
        forall|i: int| 0 <= i < old(pages)@.len() ==> (#[trigger] old(pages)@[i]).wf(side@, bpp@),
    ensures
        forall|i: int|
            0 <= i < final(pages)@.len() ==> (#[trigger] final(pages)@[i]).wf(side@, bpp@),
        page_models(final(pages)@) == undirtied(page_models(old(pages)@)),
{
    let ghost models = page_models(pages@);
    let mut i: usize = 0;
    while i < pages.len()
        invariant
            i <= pages@.len(),
            pages@.len() == models.len(),
            models == page_models(old(pages)@),
            forall|k: int| 0 <= k < pages@.len() ==> (#[trigger] pages@[k]).wf(side@, bpp@),
            forall|k: int|
                0 <= k < pages@.len() ==> (#[trigger] pages@[k]).model() == (if k < i {
                    PageModel { dirty: None, ..models[k] }
                } else {
                    models[k]
                }),
        decreases pages@.len() - i,
    {
        let ghost before = pages@;
        pages[i].dirty = None;
        proof {
            assert forall|k: int| 0 <= k < pages@.len() implies (#[trigger] pages@[k]).wf(
                side@,
                bpp@,
            ) && pages@[k].model() == (if k < i + 1 {
                PageModel { dirty: None, ..models[k] }
            } else {
                models[k]
            }) by {
                if k != i {
                    assert(pages@[k] == before[k]);
                } else {
                    assert(before[k].wf(side@, bpp@));
                    assert(before[k].model() == models[k]);
                }
            }
        }
        i = i + 1;
    }
    proof {
        assert(page_models(pages@) =~= undirtied(models));
    }
}

fn release(pages: &mut Vec<Page>, slot: AtlasSlot, side: Ghost<int>, bpp: Ghost<int>)
    requires
        forall|i: int| 0 <= i < old(pages)@.len() ==> (#[trigger] old(pages)@[i]).wf(side@, bpp@),
        slot.page < old(pages)@.len(),
        page_models(old(pages)@)[slot.page as int].cells.dom().contains(slot.alloc),
    ensures
        forall|i: int|
            0 <= i < final(pages)@.len() ==> (#[trigger] final(pages)@[i]).wf(side@, bpp@),
        page_models(final(pages)@) == page_models(old(pages)@).update(
            slot.page as int,
            page_models(final(pages)@)[slot.page as int],
        ),
        vacated(
            page_models(old(pages)@)[slot.page as int],
            page_models(final(pages)@)[slot.page as int],
            slot.alloc,
        ),
{
    let ghost models = page_models(pages@);
    let ghost before = pages@;
    let p: usize = slot.page as usize;
    proof {
        assert(before[p as int].wf(side@, bpp@));
        assert(models[p as int] == before[p as int].model());
    }
    deallocate(&mut pages[p].alloc, slot.alloc);
    let slots: u32 = pages[p].slots;
    proof {
        let c = before[p as int].model().cells;
        assert(c.remove(slot.alloc).len() == c.len() - 1);
    }
    pages[p].slots = slots - 1;
    proof {
        let m = pages@[p as int].model();
        assert(m.wf(side@, bpp@));
        assert forall|k: int| 0 <= k < pages@.len() implies (#[trigger] pages@[k]).wf(
            side@,
            bpp@,
        ) by {
            if k != p {
                assert(pages@[k] == before[k]);
            }
        }
        assert(page_models(pages@) =~= models.update(p as int, m));
    }
}

impl Default for GlyphAtlas {
    fn default() -> (r: GlyphAtlas)
        ensures
            r.wf(),
            r.model() == AtlasModel::fresh(
                ATLAS_PAGE_SIZE as int,
                MAX_ALPHA_PAGES as int,
                MAX_COLOR_PAGES as int,
            ),
    {
        GlyphAtlas::new()
    }
}

// ------------------------------------------------------------------------- laws

/// A write touches no other glyph: every byte of a slot that was in use
/// before, on any page, is as it was.
pub proof fn law_glyphs_keep_their_pixels(
    before: AtlasModel,
    after: AtlasModel,
    color: bool,
    slot: AtlasSlot,
    w: int,
    h: int,
    src: Seq<u8>,
    page: int,
    id: u32,
    r: int,
    c: int,
)
    requires
        before.wf(),
        after.wf(),
        written(before, after, color, Some(slot), w, h, src),
        0 <= w,
        0 <= h,
        0 <= page < before.pages(color).len(),
        before.pages(color)[page].cells.dom().contains(id),
        ({
            let bpp: int = if color {
                4
            } else {
                1
            };
            let cell = before.pages(color)[page].cells[id];
            cell.1 <= r < cell.3 && cell.0 * bpp <= c < cell.2 * bpp
        }),
    ensures
        ({
            let bpp: int = if color {
                4
            } else {
                1
            };
            let stride = before.side * bpp;
            after.pages(color)[page].at(stride, r, c) == before.pages(color)[page].at(stride, r, c)
        }),
{
    let bpp: int = if color {
        4
    } else {
        1
    };
    let stride = before.side * bpp;
    let b = before.pages(color);
    let a = after.pages(color);
    let p = slot.page as int;
    if p == page {
        let cell = b[page].cells[id];
        let fresh = a[page].cells[slot.alloc];
        assert(a[page].cells.dom().contains(id));
        assert(a[page].cells.dom().contains(slot.alloc));
        assert(a[page].cells[id] == cell);
        assert(apart(cell, fresh));
        assert(c < stride) by (nonlinear_arith)
            requires
                c < cell.2 * bpp,
                cell.2 <= before.side,
                stride == before.side * bpp,
                bpp > 0,
        ;
        assert(0 <= c) by (nonlinear_arith)
            requires
                cell.0 * bpp <= c,
                0 <= cell.0,
                bpp > 0,
        ;
        assert(!(slot.y <= r < slot.y + h && slot.x * bpp <= c < (slot.x + w) * bpp)) by {
            if slot.y <= r < slot.y + h && slot.x * bpp <= c < (slot.x + w) * bpp {
                assert(cell.0 < slot.x + w) by (nonlinear_arith)
                    requires
                        cell.0 * bpp <= c,
                        c < (slot.x + w) * bpp,
                        bpp > 0,
                ;
                assert(slot.x < cell.2) by (nonlinear_arith)
                    requires
                        slot.x * bpp <= c,
                        c < cell.2 * bpp,
                        bpp > 0,
                ;
            }
        }
        assert(a[page].data[r * stride + c] == b[page].data[r * stride + c]);
    } else {
        assert(a[page] == b[page]);
    }
}

/// Two slots in use on one page share no pixel.
pub proof fn law_slots_are_apart(m: AtlasModel, color: bool, page: int, j: u32, k: u32)
    requires
        m.wf(),
        0 <= page < m.pages(color).len(),
        m.pages(color)[page].cells.dom().contains(j),
        m.pages(color)[page].cells.dom().contains(k),
        j != k,
    ensures
        apart(m.pages(color)[page].cells[j], m.pages(color)[page].cells[k]),
{
}

/// The slot of a bitmap takes a bitmap of its size again once it is given
/// back.
pub proof fn law_written_slot_takes_its_size(
    before: AtlasModel,
    after: AtlasModel,
    color: bool,
    slot: AtlasSlot,
    w: int,
    h: int,
    src: Seq<u8>,
)
    requires
        written(before, after, color, Some(slot), w, h, src),
    ensures
        after.takes_again(color, slot.page, slot.alloc, w, h),
{
}

/// What a slot takes once it is given back stays the same while it is in use:
/// whatever is written beside it, and whatever else is given back.
pub proof fn law_slots_in_use_keep_their_size(
    before: AtlasModel,
    after: AtlasModel,
    set: bool,
    slot: Option<AtlasSlot>,
    bw: int,
    bh: int,
    src: Seq<u8>,
    color: bool,
    page: u16,
    alloc: u32,
    w: int,
    h: int,
)
    requires
        before.holds(color, page, alloc),
        before.takes_again(color, page, alloc, w, h),
    ensures
        written(before, after, set, slot, bw, bh, src) ==> after.takes_again(
            color,
            page,
            alloc,
            w,
            h,
        ),
        slot matches Some(s) && gave_back(before, after, set, s.page, s.alloc) && before.holds(
            set,
            s.page,
            s.alloc,
        ) && !(set == color && s.page == page && s.alloc == alloc) ==> after.takes_again(
            color,
            page,
            alloc,
            w,
            h,
        ),
{
    let p = page as int;
    if written(before, after, set, slot, bw, bh, src) {
        if color == set {
            let b = before.pages(color);
            let f = after.pages(color);
            if let Some(s) = slot {
                if s.page != page {
                    assert(f[p] == b[p]);
                }
            } else {
                assert(f[p] == b[p]);
            }
        } else {
            assert(color == !set);
        }
    }
    if let Some(s) = slot {
        if gave_back(before, after, set, s.page, s.alloc) && before.holds(set, s.page, s.alloc) {
            if color != set {
                assert(color == !set);
            }
        }
    }
}

/// A slot given back accepts the write again: the next bitmap of a size that
/// the slot took is not refused.
pub proof fn law_slot_given_back_takes_the_bitmap_again(
    before: AtlasModel,
    after: AtlasModel,
    color: bool,
    page: u16,
    alloc: u32,
    w: int,
    h: int,
    again: AtlasModel,
    slot: Option<AtlasSlot>,
    src: Seq<u8>,
)
    requires
        before.wf(),
        before.holds(color, page, alloc),
        before.takes_again(color, page, alloc, w, h),
        gave_back(before, after, color, page, alloc),
    ensures
        after.has_room(color, w, h),
        written(after, again, color, slot, w, h, src) ==> slot is Some,
{
    let p = page as int;
    assert(after.pages(color)[p].room_for(w, h));
}

/// A set whose pages never held many slots has numbers for one more.
pub proof fn law_light_pages_have_numbers(m: AtlasModel, color: bool, w: int, h: int)
    requires
        m.wf(),
        m.light(color),
    ensures
        m.numbered(color),
        numbered(m.pages(color), w, h),
{
    assert forall|i: int| 0 <= i < m.pages(color).len() implies (
    #[trigger] m.pages(color)[i]).numbered() by {
        assert(m.pages(color)[i].wf(m.side, if color { 4 } else { 1 }));
        assert(m.pages(color)[i].light(m.side));
    }
}

} // verus!
