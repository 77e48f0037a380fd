//! What the renderer decides before it talks to the device: which regions of
//! the atlas to send, in which rows, and how large buffers and texture arrays
//! have to be.

use crate::geom::RectPx;
use crate::text::atlas::{
    blitted, grown, lies_on, undirtied, wrote, AtlasModel, AtlasSlot, GlyphAtlas, PageModel,
    MAX_PAGE_SIZE,
};
use vstd::prelude::*;

verus! {

/// Texture rows start at multiples of this many bytes.
pub const ROW_ALIGN: u32 = 256;

/// The least instance buffer in bytes.
pub const MIN_INSTANCE_BYTES: u64 = 4096;

// ------------------------------------------------------------------- arithmetic

pub open spec fn power_of_two(n: nat) -> bool
    decreases n,
{
    n == 1 || (n > 1 && n % 2 == 0 && power_of_two(n / 2))
}

/// The least power of two that is not below `n`.
pub open spec fn least_power(n: nat, r: nat) -> bool {
    power_of_two(r) && n <= r && (r == 1 || r / 2 < n)
}

/// The least multiple of a row's alignment that is not below `n`.
pub open spec fn row_up(n: int) -> int {
    (n + 255) / 256 * 256
}

/// The least power of two that is not below `n`.
pub fn next_power_of_two(n: u64) -> (r: u64)
    requires
        n <= 0x8000_0000_0000_0000,
    ensures
        least_power(n as nat, r as nat),
{
    let mut r: u64 = 1;
    while r < n
        invariant
            n <= 0x8000_0000_0000_0000,
            r >= 1,
            power_of_two(r as nat),
            r == 1 || (r / 2) < n,
        decreases 2 * n - r,
    {
        proof {
            assert(((r * 2) as nat) / 2 == r);
        }
        r = r * 2;
    }
    r
}

// ---------------------------------------------------------------------- capacity

/// Layers of the two texture arrays.
#[derive(Clone, Copy, Debug, PartialEq, Eq, Structural)]
pub struct Caps {
    pub alpha: u32,
    pub color: u32,
}

/// A set has `cap` layers once it holds `pages` pages: as many as before, at
/// least one, where they suffice; else the least power of two that does.
pub open spec fn grown_cap(cap: u32, pages: u32, new: u32) -> bool {
    if pages > cap {
        least_power(pages as nat, new as nat)
    } else {
        new == (if cap == 0 {
            1
        } else {
            cap
        })
    }
}

fn grow(cap: u32, pages: u32) -> (new: u32)
    requires
        pages <= 0xFFFF,
    ensures
        grown_cap(cap, pages, new),
{
    if pages > cap {
        next_power_of_two(pages as u64) as u32
    } else if cap == 0 {
        1
    } else {
        cap
    }
}

/// The texture arrays have to be made anew: there are none, or one is too
/// small.
pub open spec fn outgrown(caps: Option<Caps>, alpha: int, color: int) -> bool {
    match caps {
        Some(c) => alpha > c.alpha || color > c.color,
        None => true,
    }
}

/// What the texture arrays are made anew with, if they have to be.
pub open spec fn regrown(
    caps: Option<Caps>,
    alpha_pages: u32,
    color_pages: u32,
    r: Option<Caps>,
) -> bool {
    match r {
        Some(new) => {
            let c = caps_or_none(caps);
            &&& outgrown(caps, alpha_pages as int, color_pages as int)
            &&& grown_cap(c.alpha, alpha_pages, new.alpha)
            &&& grown_cap(c.color, color_pages, new.color)
        },
        None => !outgrown(caps, alpha_pages as int, color_pages as int),
    }
}

/// New sizes of the texture arrays, where they have to be made anew.
pub fn growth(caps: Option<Caps>, alpha_pages: u32, color_pages: u32) -> (r: Option<Caps>)
    requires
        alpha_pages <= 0xFFFF,
        color_pages <= 0xFFFF,
    ensures
        regrown(caps, alpha_pages, color_pages, r),
{
    let (alpha, color, made) = match caps {
        Some(c) => (c.alpha, c.color, true),
        None => (0, 0, false),
    };
    if made && alpha_pages <= alpha && color_pages <= color {
        return None;
    }
    Some(Caps { alpha: grow(alpha, alpha_pages), color: grow(color, color_pages) })
}

/// The sizes there are; none before the first.
pub open spec fn caps_or_none(caps: Option<Caps>) -> Caps {
    match caps {
        Some(c) => c,
        None => Caps { alpha: 0, color: 0 },
    }
}

/// Texture arrays that were made anew hold every page, and do not have to be
/// made again until a page is added.
pub proof fn law_growth_suffices(caps: Option<Caps>, alpha: u32, color: u32, new: Caps)
    requires
        grown_cap(caps_or_none(caps).alpha, alpha, new.alpha),
        grown_cap(caps_or_none(caps).color, color, new.color),
    ensures
        new.alpha >= 1,
        new.color >= 1,
        !outgrown(Some(new), alpha as int, color as int),
{
}

/// What an instance buffer is made anew with, if it has to be.
pub open spec fn buffered(cap: Option<u64>, needed: u64, r: Option<u64>) -> bool {
    match r {
        Some(new) => {
            &&& cap matches Some(c) ==> needed > c
            &&& needed <= new
            &&& if needed <= MIN_INSTANCE_BYTES {
                new == MIN_INSTANCE_BYTES
            } else {
                least_power(needed as nat, new as nat)
            }
        },
        None => cap matches Some(c) && needed <= c,
    }
}

/// Size of a new instance buffer, where there is none or the one there is is
/// too small for `needed` bytes.
pub fn instance_capacity(cap: Option<u64>, needed: u64) -> (r: Option<u64>)
    requires
        needed <= 0x8000_0000_0000_0000,
    ensures
        buffered(cap, needed, r),
{
    if let Some(c) = cap {
        if needed <= c {
            return None;
        }
    }
    if needed <= MIN_INSTANCE_BYTES {
        return Some(MIN_INSTANCE_BYTES);
    }
    Some(next_power_of_two(needed))
}

// ------------------------------------------------------------------------ upload

/// Bytes per pixel of a page set.
pub open spec fn bpp_of(color: bool) -> int {
    if color {
        4
    } else {
        1
    }
}

/// A rectangle of a page, copied out row by row, each row padded with zeros
/// to its alignment.
pub open spec fn packed(page: Seq<u8>, stride: int, rect: RectPx, bpp: int, out: Seq<u8>) -> bool {
    let row = (rect.max_x - rect.min_x) * bpp;
    let pitch = row_up(row);
    let h = rect.max_y - rect.min_y;
    &&& out.len() == pitch * h
    &&& forall|r: int, c: int|
        #![trigger out[r * pitch + c]]
        0 <= r < h && 0 <= c < pitch ==> out[r * pitch + c] == (if c < row {
            page[(rect.min_y + r) * stride + (rect.min_x * bpp + c)]
        } else {
            0
        })
}

/// Copies a rectangle out of a tightly packed page into rows that are padded
/// to their alignment. Nothing behind the last pixel of its last row is read.
pub fn repack(page: &[u8], stride: usize, rect: RectPx, bpp: u32) -> (out: Vec<u8>)
    requires
        rect.min_x <= rect.max_x,
        rect.min_y <= rect.max_y,
        rect.min_y < rect.max_y ==> (rect.max_y - 1) * stride + rect.max_x * bpp <= page@.len(),
        row_up((rect.max_x - rect.min_x) * bpp) <= usize::MAX,
        row_up((rect.max_x - rect.min_x) * bpp) * (rect.max_y - rect.min_y) <= usize::MAX,
    ensures
        packed(page@, stride as int, rect, bpp as int, out@),
{
    let w: usize = (rect.max_x - rect.min_x) as usize;
    let h: usize = (rect.max_y - rect.min_y) as usize;
    assert(0 <= w * bpp && 0 <= rect.min_x * bpp) by (nonlinear_arith);
    let row: usize = w * bpp as usize;
    let pitch: usize = (row + 255) / 256 * 256;
    let len: usize = page.len();
    let mut out: Vec<u8> = Vec::new();
    let mut r: usize = 0;
    assert(pitch * 0 == 0);
    while r < h
        invariant
            r <= h,
            h == rect.max_y - rect.min_y,
            w == rect.max_x - rect.min_x,
            row == w * bpp,
            pitch == row_up(row as int),
            row <= pitch,
            0 <= rect.min_x * bpp,
            h > 0 ==> (rect.max_y - 1) * stride + rect.max_x * bpp <= len,
            len == page@.len(),
            rect.min_y <= rect.max_y,
            rect.min_x <= rect.max_x,
            pitch * h <= usize::MAX,
            out@.len() == pitch * r,
            forall|i: int, c: int|
                #![trigger out@[i * pitch + c]]
                0 <= i < r && 0 <= c < pitch ==> out@[i * pitch + c] == (if c < row {
                    page@[(rect.min_y + i) * stride + (rect.min_x * bpp + c)]
                } else {
                    0
                }),
        decreases h - r,
    {
        let ghost before = out@;
        assert(rect.min_x * bpp + row == rect.max_x * bpp) by (nonlinear_arith)
            requires
                row == w * bpp,
                w + rect.min_x == rect.max_x,
        ;
        assert(0 <= (rect.min_y + r) * stride <= (rect.max_y - 1) * stride) by (nonlinear_arith)
            requires
                0 <= r,
                rect.min_y + r + 1 <= rect.max_y,
        ;
        let left: usize = rect.min_x as usize * bpp as usize;
        let from: usize = (rect.min_y as usize + r) * stride + left;
        let mut c: usize = 0;
        while c < pitch
            invariant
                c <= pitch,
                row <= pitch,
                from == (rect.min_y + r) * stride + left,
                from + row <= len,
                len == page@.len(),
                before.len() == pitch * r,
                out@.len() == pitch * r + c,
                forall|k: int| 0 <= k < before.len() ==> out@[k] == before[k],
                forall|k: int|
                    0 <= k < c ==> #[trigger] out@[pitch * r + k] == (if k < row {
                        page@[from + k]
                    } else {
                        0
                    }),
            decreases pitch - c,
        {
            if c < row {
                out.push(page[from + c]);
            } else {
                out.push(0);
            }
            c = c + 1;
        }
        proof {
            assert(pitch * (r + 1) == pitch * r + pitch) by (nonlinear_arith);
            assert forall|i: int, c: int|
                #![trigger out@[i * pitch + c]]
                0 <= i < r + 1 && 0 <= c < pitch implies out@[i * pitch + c] == (if c < row {
                page@[(rect.min_y + i) * stride + (rect.min_x * bpp + c)]
            } else {
                0
            }) by {
                if i < r {
                    assert(0 <= i * pitch + c < pitch * r) by (nonlinear_arith)
                        requires
                            0 <= i < r,
                            0 <= c < pitch,
                    ;
                    assert(before[i * pitch + c] == out@[i * pitch + c]);
                } else {
                    assert(i * pitch == pitch * r) by (nonlinear_arith)
                        requires
                            i == r,
                    ;
                    assert(out@[pitch * r + c] == (if c < row {
                        page@[from + c]
                    } else {
                        0
                    }));
                }
            }
        }
        r = r + 1;
    }
    out
}

/// The rows of an upload: part of the page as it is, or a padded copy.
#[derive(Debug)]
pub enum Rows {
    Whole(usize, usize),
    Packed(Vec<u8>),
}

/// One region of one page on its way to its texture layer.
#[derive(Debug)]
pub struct Upload {
    pub color: bool,
    pub layer: u32,
    pub rect: RectPx,
    pub row_pitch: u32,
    pub rows: Rows,
}

impl Upload {
    /// The bytes that are sent, given the page that they are of.
    pub open spec fn sent(self, page: Seq<u8>) -> Seq<u8> {
        match self.rows {
            Rows::Whole(start, end) => page.subrange(start as int, end as int),
            Rows::Packed(bytes) => bytes@,
        }
    }

    pub open spec fn height(self) -> int {
        self.rect.max_y - self.rect.min_y
    }

    /// What is sent holds the region, row by row.
    pub open spec fn carries(self, page: Seq<u8>, side: int) -> bool {
        let bpp = bpp_of(self.color);
        let stride = side * bpp;
        let row = (self.rect.max_x - self.rect.min_x) * bpp;
        let sent = self.sent(page);
        &&& row <= self.row_pitch
        &&& sent.len() == self.row_pitch * self.height()
        &&& forall|r: int, c: int|
            #![trigger sent[r * self.row_pitch + c]]
            0 <= r < self.height() && 0 <= c < row ==> sent[r * self.row_pitch + c] == page[(
            self.rect.min_y + r) * stride + (self.rect.min_x * bpp + c)]
    }

    /// Number of bytes that are sent.
    pub fn bytes(&self) -> (n: u64)
        requires
            self.rect.min_y <= self.rect.max_y,
        ensures
            n == self.row_pitch * self.height(),
    {
        let h: u32 = self.rect.max_y - self.rect.min_y;
        assert(self.row_pitch * h <= 0xFFFF_FFFF * 0xFFFF_FFFF) by (nonlinear_arith)
            requires
                self.row_pitch <= 0xFFFF_FFFF,
                h <= 0xFFFF_FFFF,
        ;
        self.row_pitch as u64 * h as u64
    }
}

/// True of a region that has no pixels.
pub open spec fn hollow(rect: RectPx) -> bool {
    rect.min_x == rect.max_x || rect.min_y == rect.max_y
}

/// A region of a page, on its way to its layer; nothing where it has no
/// pixels.
pub open spec fn prepared(
    page: Seq<u8>,
    page_size: u32,
    color: bool,
    layer: u32,
    rect: RectPx,
    r: Option<Upload>,
) -> bool {
    match r {
        Some(u) => {
            &&& !hollow(rect)
            &&& u.color == color
            &&& u.layer == layer
            &&& u.rect == rect
            &&& u.row_pitch == (if rect.max_x - rect.min_x == page_size {
                page_size * bpp_of(color)
            } else {
                row_up((rect.max_x - rect.min_x) * bpp_of(color))
            })
            &&& u.rows is Whole == (rect.max_x - rect.min_x == page_size)
            &&& u.carries(page, page_size as int)
        },
        None => hollow(rect),
    }
}

/// Prepares one region of a page. Rows of full width are sent as they lie on
/// the page; narrower ones go through a padded copy.
pub fn upload_rect(page: &[u8], page_size: u32, color: bool, layer: u32, rect: RectPx) -> (r:
    Option<Upload>)
    requires
        0 < page_size <= MAX_PAGE_SIZE,
        page@.len() == page_size * page_size * bpp_of(color),
        lies_on(Some(rect), page_size as int),
    ensures
        prepared(page@, page_size, color, layer, rect, r),
        r matches Some(u) ==> page_size % 256 == 0 ==> u.row_pitch % 256 == 0,
{
    let bpp: u32 = if color {
        4
    } else {
        1
    };
    let w: u32 = rect.max_x - rect.min_x;
    let h: u32 = rect.max_y - rect.min_y;
    if w == 0 || h == 0 {
        return None;
    }
    let stride: u32 = page_size * bpp;
    let ghost side = page_size as int;
    assert(side * side * bpp == side * stride) by (nonlinear_arith)
        requires
            stride == side * bpp,
    ;
    assert(rect.max_y * stride <= side * stride <= 32767 * 131068) by (nonlinear_arith)
        requires
            rect.max_y <= side <= 32767,
            stride <= 131068,
    ;
    assert(rect.max_x * bpp <= stride) by (nonlinear_arith)
        requires
            rect.max_x <= side,
            stride == side * bpp,
    ;
    if w == page_size {
        assert(rect.min_y * stride + h * stride == rect.max_y * stride) by (nonlinear_arith)
            requires
                rect.min_y + h == rect.max_y,
        ;
        assert(0 <= rect.min_y * stride && 0 <= h * stride) by (nonlinear_arith);
        let start: usize = rect.min_y as usize * stride as usize;
        let end: usize = start + h as usize * stride as usize;
        let u = Upload { color, layer, rect, row_pitch: stride, rows: Rows::Whole(start, end) };
        proof {
            assert(stride as int * h == h * stride as int) by (nonlinear_arith);
            let sent = u.sent(page@);
            assert(sent.len() == stride * h);
            assert forall|r: int, c: int|
                #![trigger sent[r * u.row_pitch + c]]
                0 <= r < h && 0 <= c < stride implies sent[r * u.row_pitch + c] == page@[(rect.min_y
                + r) * stride + (rect.min_x * bpp + c)] by {
                assert(0 <= r * stride + c < h * stride) by (nonlinear_arith)
                    requires
                        0 <= r < h,
                        0 <= c < stride,
                ;
                assert((rect.min_y + r) * stride == rect.min_y * stride + r * stride)
                    by (nonlinear_arith);
            }
            if page_size % 256 == 0 {
                assert(stride % 256 == 0);
            }
        }
        Some(u)
    } else {
        proof {
            let row = w * bpp;
            assert((rect.max_y - 1) * stride + stride == rect.max_y * stride) by (nonlinear_arith);
            assert(row <= rect.max_x * bpp) by (nonlinear_arith)
                requires
                    row == w * bpp,
                    w <= rect.max_x,
            ;
            assert(row_up(row) <= 131072);
            assert(row_up(row) * h <= 131072 * 32767) by (nonlinear_arith)
                requires
                    0 <= row_up(row) <= 131072,
                    0 <= h <= 32767,
            ;
        }
        let row: u32 = w * bpp;
        let bytes = repack(page, stride as usize, rect, bpp);
        Some(
            Upload {
                color,
                layer,
                rect,
                row_pitch: (row + 255) / 256 * 256,
                rows: Rows::Packed(bytes),
            },
        )
    }
}

// -------------------------------------------------------------------------- sync

/// The region of a page that has to be sent: all that was ever written for a
/// fresh texture, else what changed.
pub open spec fn region(page: PageModel, fresh: bool) -> Option<RectPx> {
    if fresh {
        page.used
    } else {
        page.dirty
    }
}

/// The regions that have to be sent of the first `k` pages of a set, with
/// their pages.
pub open spec fn regions(pages: Seq<PageModel>, fresh: bool, k: nat) -> Seq<(u32, RectPx)>
    decreases k,
{
    if k == 0 {
        Seq::empty()
    } else {
        let rest = regions(pages, fresh, (k - 1) as nat);
        match region(pages[k - 1], fresh) {
            Some(rect) => if hollow(rect) {
                rest
            } else {
                rest.push(((k - 1) as u32, rect))
            },
            None => rest,
        }
    }
}

/// Uploads are those regions of a set, in page order, each with its bytes.
pub open spec fn sends(
    uploads: Seq<Upload>,
    pages: Seq<PageModel>,
    color: bool,
    fresh: bool,
    k: nat,
    side: int,
) -> bool {
    let want = regions(pages, fresh, k);
    &&& uploads.len() == want.len()
    &&& forall|i: int|
        #![trigger uploads[i]]
        0 <= i < uploads.len() ==> {
            &&& uploads[i].color == color
            &&& (uploads[i].layer, uploads[i].rect) == want[i]
            &&& uploads[i].layer < k
            &&& uploads[i].carries(pages[uploads[i].layer as int].data, side)
        }
}

/// What has to be done before the next frame can be drawn.
#[derive(Debug)]
pub struct AtlasSync {
    /// New sizes, where the texture arrays have to be made anew.
    pub rebuild: Option<Caps>,
    pub alpha: Vec<Upload>,
    pub color: Vec<Upload>,
}

fn plan(atlas: &GlyphAtlas, color: bool, fresh: bool) -> (out: Vec<Upload>)
    requires
        atlas.wf(),
    ensures
        sends(
            out@,
            atlas.model().pages(color),
            color,
            fresh,
            atlas.model().pages(color).len(),
            atlas.model().side,
        ),
{
    let ghost m = atlas.model();
    let ghost pages = m.pages(color);
    proof {
        atlas.lemma_wf();
    }
    let n: usize = if color {
        atlas.color_pages()
    } else {
        atlas.alpha_pages()
    };
    let side: u32 = atlas.page_size();
    let mut out: Vec<Upload> = Vec::new();
    let mut p: usize = 0;
    while p < n
        invariant
            p <= n,
            n == pages.len() <= 0xFFFF,
            m == atlas.model(),
            m.wf(),
            pages == m.pages(color),
            side == m.side,
            sends(out@, pages, color, fresh, p as nat, side as int),
        decreases n - p,
    {
        let ghost before = out@;
        let (data, dirty) = atlas.page_bytes(color, p);
        let rect: Option<RectPx> = if fresh {
            atlas.page_used(color, p)
        } else {
            dirty
        };
        proof {
            assert(pages[p as int].wf(side as int, bpp_of(color)));
        }
        if let Some(r) = rect {
            if let Some(u) = upload_rect(data, side, color, p as u32, r) {
                out.push(u);
            }
        }
        proof {
            assert forall|i: int| #![trigger out@[i]] 0 <= i < before.len() implies out@[i]
                == before[i] by {}
        }
        p = p + 1;
    }
    out
}

/// What a sync makes of an atlas, and what it plans.
pub open spec fn synced(
    before: AtlasModel,
    after: AtlasModel,
    caps: Option<Caps>,
    r: AtlasSync,
) -> bool {
    let fresh = outgrown(caps, before.alpha.len() as int, before.color.len() as int);
    &&& after == (AtlasModel {
        alpha: undirtied(before.alpha),
        color: undirtied(before.color),
        ..before
    })
    &&& regrown(caps, before.alpha.len() as u32, before.color.len() as u32, r.rebuild)
    &&& r.rebuild is Some <==> fresh
    &&& sends(r.alpha@, before.alpha, false, fresh, before.alpha.len(), before.side)
    &&& sends(r.color@, before.color, true, fresh, before.color.len(), before.side)
}

/// Plans what brings the textures up to date, and marks every page clean.
pub fn sync_atlas(atlas: &mut GlyphAtlas, caps: Option<Caps>) -> (r: AtlasSync)
    requires
        old(atlas).wf(),
    ensures
        final(atlas).wf(),
        synced(old(atlas).model(), final(atlas).model(), caps, r),
{
    proof {
        atlas.lemma_wf();
    }
    let alpha_pages: u32 = atlas.alpha_pages() as u32;
    let color_pages: u32 = atlas.color_pages() as u32;
    let rebuild: Option<Caps> = growth(caps, alpha_pages, color_pages);
    let fresh: bool = rebuild.is_some();
    let alpha = plan(atlas, false, fresh);
    let color = plan(atlas, true, fresh);
    atlas.clear_dirty();
    AtlasSync { rebuild, alpha, color }
}

// -------------------------------------------------------------------------- laws

/// Byte `c` of row `r` lies in a region, if there is one.
pub open spec fn inside(region: Option<RectPx>, bpp: int, r: int, c: int) -> bool {
    region matches Some(rect) && rect.min_y <= r < rect.max_y && rect.min_x * bpp <= c < rect.max_x
        * bpp
}

/// A texture layer holds what a page holds, but for a region.
pub open spec fn agrees(
    tex: Seq<u8>,
    data: Seq<u8>,
    region: Option<RectPx>,
    side: int,
    bpp: int,
) -> bool {
    let stride = side * bpp;
    &&& tex.len() == data.len() == side * stride
    &&& forall|r: int, c: int|
        #![trigger tex[r * stride + c]]
        #![trigger data[r * stride + c]]
        0 <= r < side && 0 <= c < stride && !inside(region, bpp, r, c) ==> tex[r * stride + c]
            == data[r * stride + c]
}

/// A texture layer after an upload: the rows that were sent inside the
/// region, the old bytes outside.
pub open spec fn pasted(tex: Seq<u8>, after: Seq<u8>, u: Upload, sent: Seq<u8>, side: int) -> bool {
    let bpp = bpp_of(u.color);
    let stride = side * bpp;
    &&& after.len() == tex.len()
    &&& forall|r: int, c: int|
        #![trigger after[r * stride + c]]
        0 <= r < side && 0 <= c < stride ==> after[r * stride + c] == (if inside(
            Some(u.rect),
            bpp,
            r,
            c,
        ) {
            sent[(r - u.rect.min_y) * u.row_pitch + (c - u.rect.min_x * bpp)]
        } else {
            tex[r * stride + c]
        })
}

/// Every byte of a page has a row and a column.
proof fn lemma_split(k: int, side: int, stride: int) -> (rc: (int, int))
    requires
        0 <= k < side * stride,
        stride > 0,
    ensures
        0 <= rc.0 < side,
        0 <= rc.1 < stride,
        k == rc.0 * stride + rc.1,
{
    let r = k / stride;
    let c = k % stride;
    vstd::arithmetic::div_mod::lemma_fundamental_div_mod(k, stride);
    vstd::arithmetic::div_mod::lemma_mod_bound(k, stride);
    assert(stride * r == r * stride) by (nonlinear_arith);
    assert(0 <= r < side) by (nonlinear_arith)
        requires
            0 <= k < side * stride,
            k == r * stride + c,
            0 <= c < stride,
    ;
    (r, c)
}

/// An upload of a region completes a layer that held everything else. With
/// the dirty region this brings a layer up to date; with the used region it
/// fills a fresh layer, which is all zeros.
pub proof fn law_upload_completes_the_layer(
    tex: Seq<u8>,
    after: Seq<u8>,
    data: Seq<u8>,
    u: Upload,
    side: int,
)
    requires
        side > 0,
        agrees(tex, data, Some(u.rect), side, bpp_of(u.color)),
        u.carries(data, side),
        pasted(tex, after, u, u.sent(data), side),
    ensures
        after == data,
{
    let bpp = bpp_of(u.color);
    let stride = side * bpp;
    let sent = u.sent(data);
    let row = (u.rect.max_x - u.rect.min_x) * bpp;
    assert forall|k: int| 0 <= k < after.len() implies after[k] == data[k] by {
        let (r, c) = lemma_split(k, side, stride);
        assert(after[r * stride + c] == after[k]);
        if inside(Some(u.rect), bpp, r, c) {
            let i = r - u.rect.min_y;
            let j = c - u.rect.min_x * bpp;
            assert(sent[i * u.row_pitch + j] == data[(u.rect.min_y + i) * stride + (u.rect.min_x
                * bpp + j)]);
        } else {
            assert(tex[r * stride + c] == data[r * stride + c]);
        }
    }
    assert(after =~= data);
}

/// Writing a glyph keeps the agreement: what a layer lacks lies in the dirty
/// region, and what was ever written lies in the used region.
pub proof fn law_writes_stay_in_the_regions(
    before: Seq<PageModel>,
    after: Seq<PageModel>,
    side: int,
    color: bool,
    slot: AtlasSlot,
    w: int,
    h: int,
    src: Seq<u8>,
    tex: Seq<u8>,
)
    requires
        side > 0,
        wrote(before, after, side, bpp_of(color), slot, w, h, src),
        slot.page < before.len(),
        0 <= w,
        0 <= h,
        slot.x + w <= side <= MAX_PAGE_SIZE,
        slot.y + h <= side,
    ensures
        ({
            let p = slot.page as int;
            let bpp = bpp_of(color);
            &&& agrees(tex, before[p].data, before[p].dirty, side, bpp) ==> agrees(
                tex,
                after[p].data,
                after[p].dirty,
                side,
                bpp,
            )
            &&& agrees(tex, before[p].data, before[p].used, side, bpp) ==> agrees(
                tex,
                after[p].data,
                after[p].used,
                side,
                bpp,
            )
        }),
{
    let p = slot.page as int;
    let rect = RectPx {
        min_x: slot.x as u32,
        min_y: slot.y as u32,
        max_x: (slot.x + w) as u32,
        max_y: (slot.y + h) as u32,
    };
    lemma_write_agrees(
        tex,
        before[p].data,
        after[p].data,
        before[p].dirty,
        rect,
        side,
        color,
        src,
    );
    lemma_write_agrees(
        tex,
        before[p].data,
        after[p].data,
        before[p].used,
        rect,
        side,
        color,
        src,
    );
}

proof fn lemma_write_agrees(
    tex: Seq<u8>,
    before: Seq<u8>,
    after: Seq<u8>,
    region: Option<RectPx>,
    rect: RectPx,
    side: int,
    color: bool,
    src: Seq<u8>,
)
    requires
        side > 0,
        rect.min_x <= rect.max_x,
        rect.min_y <= rect.max_y,
        blitted(
            before,
            after,
            side,
            bpp_of(color),
            rect.min_x as int,
            rect.min_y as int,
            rect.max_x - rect.min_x,
            rect.max_y - rect.min_y,
            src,
        ),
    ensures
        agrees(tex, before, region, side, bpp_of(color)) ==> agrees(
            tex,
            after,
            grown(region, rect),
            side,
            bpp_of(color),
        ),
{
    let bpp = bpp_of(color);
    let stride = side * bpp;
    if agrees(tex, before, region, side, bpp) {
        assert forall|r: int, c: int|
            #![trigger tex[r * stride + c]]
            #![trigger after[r * stride + c]]
            0 <= r < side && 0 <= c < stride && !inside(
                grown(region, rect),
                bpp,
                r,
                c,
            ) implies tex[r * stride + c] == after[r * stride + c] by {
            assert(!inside(region, bpp, r, c));
            assert(tex[r * stride + c] == before[r * stride + c]);
            assert(after[r * stride + c] == before[r * stride + c]);
        }
    }
}

/// After a sync nothing is left to send.
pub proof fn law_sync_leaves_nothing(pages: Seq<PageModel>, k: nat)
    requires
        k <= pages.len(),
    ensures
        regions(undirtied(pages), false, k) == Seq::<(u32, RectPx)>::empty(),
    decreases k,
{
    if k > 0 {
        law_sync_leaves_nothing(pages, (k - 1) as nat);
    }
}

/// Powers of two are 1 and twice each power of two, and nothing else.
pub proof fn law_powers_double(n: nat)
    ensures
        power_of_two(1),
        !power_of_two(0),
        n > 0 ==> (power_of_two(2 * n) <==> power_of_two(n)),
        n > 0 ==> !power_of_two(2 * n + 1),
{
    assert((2 * n) / 2 == n);
}

/// The least power of two is the least.
pub proof fn law_least_power_is_least(n: nat, r: nat, s: nat)
    requires
        least_power(n, r),
        power_of_two(s),
        n <= s,
    ensures
        n <= r <= s,
{
    if r > 1 {
        lemma_powers_apart(r, s);
    }
}

proof fn lemma_powers_apart(r: nat, s: nat)
    requires
        power_of_two(r),
        power_of_two(s),
        r / 2 < s,
    ensures
        r <= s,
    decreases s,
{
    if r > 1 && s > 1 {
        if r > 2 {
            lemma_powers_apart(r / 2, s / 2);
        }
    }
}

/// A padded row is the least multiple of 256 bytes that holds the row.
pub proof fn law_rows_are_aligned(n: int)
    requires
        0 <= n,
    ensures
        row_up(n) % 256 == 0,
        n <= row_up(n) < n + 256,
{
}

/// A texture array grows only where it is too small, and then to the least
/// power of two that suffices; it never has less than one layer, nor fewer
/// than before.
pub proof fn law_arrays_grow_as_needed(cap: u32, pages: u32, new: u32)
    requires
        grown_cap(cap, pages, new),
    ensures
        new >= 1 && new >= pages && new >= cap,
        0 < cap && pages <= cap ==> new == cap,
        cap == 0 && pages == 0 ==> new == 1,
        pages > cap ==> power_of_two(new as nat) && new < 2 * pages,
{
}

/// Arrays are made anew exactly where there are none, or one of them has fewer
/// layers than pages.
pub proof fn law_arrays_are_made_anew(caps: Option<Caps>, alpha: u32, color: u32, r: Option<Caps>)
    requires
        regrown(caps, alpha, color, r),
    ensures
        r is Some <==> caps is None || alpha > caps.unwrap().alpha || color > caps.unwrap().color,
        r is Some ==> r.unwrap().alpha >= alpha && r.unwrap().color >= color,
        r is Some && caps is Some ==> (alpha <= caps.unwrap().alpha && caps.unwrap().alpha > 0
            ==> r.unwrap().alpha == caps.unwrap().alpha) && (color <= caps.unwrap().color
            && caps.unwrap().color > 0 ==> r.unwrap().color == caps.unwrap().color),
{
}

/// The instance buffer is made anew exactly where there is none or it is too
/// small: with at least 4096 bytes, and less than twice what is needed above
/// that.
pub proof fn law_instance_buffers_suffice(cap: Option<u64>, needed: u64, r: Option<u64>)
    requires
        buffered(cap, needed, r),
    ensures
        r is None <==> cap is Some && needed <= cap.unwrap(),
        r matches Some(new) ==> {
            &&& new >= needed && new >= 4096
            &&& needed <= 4096 ==> new == 4096
            &&& needed > 4096 ==> new < 2 * needed && power_of_two(new as nat)
        },
{
}

/// What has to be sent: of each page what changed, or for a fresh texture all
/// that was ever written, as long as it has pixels; and nothing else.
pub proof fn law_regions_to_send(pages: Seq<PageModel>, fresh: bool, k: nat, p: u32, rect: RectPx)
    requires
        k <= pages.len() <= u32::MAX,
    ensures
        regions(pages, fresh, k).contains((p, rect)) <==> {
            &&& p < k
            &&& fresh ==> pages[p as int].used == Some(rect)
            &&& !fresh ==> pages[p as int].dirty == Some(rect)
            &&& rect.min_x != rect.max_x && rect.min_y != rect.max_y
        },
    decreases k,
{
    if k > 0 {
        let rest = regions(pages, fresh, (k - 1) as nat);
        let all = regions(pages, fresh, k);
        law_regions_to_send(pages, fresh, (k - 1) as nat, p, rect);
        if rest.contains((p, rect)) {
            let i = choose|i: int| 0 <= i < rest.len() && rest[i] == (p, rect);
            assert(all[i] == (p, rect));
        }
        if all.contains((p, rect)) && !rest.contains((p, rect)) {
            let i = choose|i: int| 0 <= i < all.len() && all[i] == (p, rect);
            if i < rest.len() {
                assert(rest[i] == (p, rect));
            }
        }
        if p == k - 1 && region(pages[k - 1], fresh) == Some(rect) && !hollow(rect) {
            assert(all[rest.len() as int] == (p, rect));
        }
    } else {
        assert(!regions(pages, fresh, 0).contains((p, rect)));
    }
}

/// Regions are sent in the order of their pages, each page once.
pub proof fn law_regions_in_page_order(pages: Seq<PageModel>, fresh: bool, k: nat, i: int, j: int)
    requires
        k <= pages.len() <= u32::MAX,
        0 <= i < j < regions(pages, fresh, k).len(),
    ensures
        regions(pages, fresh, k)[i].0 < regions(pages, fresh, k)[j].0 < k,
    decreases k,
{
    let rest = regions(pages, fresh, (k - 1) as nat);
    if j < rest.len() {
        law_regions_in_page_order(pages, fresh, (k - 1) as nat, i, j);
    } else {
        let (p, rect) = rest[i];
        assert(rest.contains((p, rect)));
        law_regions_to_send(pages, fresh, (k - 1) as nat, p, rect);
    }
}

/// A pixel is one byte of an alpha page and four of a color page.
pub proof fn law_bytes_per_pixel()
    ensures
        bpp_of(false) == 1 && bpp_of(true) == 4,
        ROW_ALIGN == 256 && MIN_INSTANCE_BYTES == 4096,
{
}

/// A region with pixels is sent to its own layer: of full width as it lies on
/// the page, row after row; a narrower one in rows of a multiple of 256 bytes,
/// less than 256 wider than needed.
pub proof fn law_uploads_are_aligned(
    page: Seq<u8>,
    side: u32,
    color: bool,
    layer: u32,
    rect: RectPx,
    r: Option<Upload>,
)
    requires
        prepared(page, side, color, layer, rect, r),
        rect.min_x <= rect.max_x,
    ensures
        r is None <==> rect.min_x == rect.max_x || rect.min_y == rect.max_y,
        r matches Some(u) ==> {
            let bpp: int = if color {
                4
            } else {
                1
            };
            let row = (rect.max_x - rect.min_x) * bpp;
            &&& u.layer == layer && u.rect == rect && u.color == color
            &&& u.carries(page, side as int)
            &&& rect.max_x - rect.min_x == side ==> u.row_pitch == side * bpp && u.rows is Whole
            &&& rect.max_x - rect.min_x != side ==> {
                &&& u.rows is Packed
                &&& u.row_pitch % 256 == 0
                &&& row <= u.row_pitch < row + 256
            }
        },
{
}

/// A sync makes the arrays anew where they are outgrown, then sends all that
/// was ever written; else it sends what changed. Either way no page is left
/// changed, and nothing else of the atlas is touched.
pub proof fn law_sync_brings_up_to_date(
    before: AtlasModel,
    after: AtlasModel,
    caps: Option<Caps>,
    r: AtlasSync,
    i: int,
)
    requires
        synced(before, after, caps, r),
        before.wf(),
    ensures
        r.rebuild is Some <==> caps is None || before.alpha.len() > caps.unwrap().alpha
            || before.color.len() > caps.unwrap().color,
        0 <= i < r.alpha@.len() ==> {
            let u = r.alpha@[i];
            let page = before.alpha[u.layer as int];
            &&& !u.color && u.layer < before.alpha.len()
            &&& r.rebuild is Some ==> page.used == Some(u.rect)
            &&& r.rebuild is None ==> page.dirty == Some(u.rect)
            &&& u.carries(page.data, before.side)
        },
        0 <= i < r.color@.len() ==> {
            let u = r.color@[i];
            let page = before.color[u.layer as int];
            &&& u.color && u.layer < before.color.len()
            &&& r.rebuild is Some ==> page.used == Some(u.rect)
            &&& r.rebuild is None ==> page.dirty == Some(u.rect)
            &&& u.carries(page.data, before.side)
        },
        0 <= i < before.alpha.len() ==> after.alpha[i] == (PageModel {
            dirty: None,
            ..before.alpha[i]
        }),
        0 <= i < before.color.len() ==> after.color[i] == (PageModel {
            dirty: None,
            ..before.color[i]
        }),
        after.side == before.side && after.stats == before.stats,
{
    let fresh = r.rebuild is Some;
    if 0 <= i < r.alpha@.len() {
        let u = r.alpha@[i];
        let want = regions(before.alpha, fresh, before.alpha.len());
        assert(want[i] == (u.layer, u.rect));
        assert(want.contains((u.layer, u.rect)));
        law_regions_to_send(before.alpha, fresh, before.alpha.len(), u.layer, u.rect);
    }
    if 0 <= i < r.color@.len() {
        let u = r.color@[i];
        let want = regions(before.color, fresh, before.color.len());
        assert(want[i] == (u.layer, u.rect));
        assert(want.contains((u.layer, u.rect)));
        law_regions_to_send(before.color, fresh, before.color.len(), u.layer, u.rect);
    }
}

} // verus!
