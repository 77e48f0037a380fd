//! Glyph raster cache.
//!
//! An entry is not keyed by glyph id alone: the key covers every input that
//! changes the raster output, that is font identity, glyph id, effective
//! pixel size, variation coordinates and synthetic styling, and the
//! quantized subpixel offset.

use super::atlas::{
    gave_back, law_slot_given_back_takes_the_bitmap_again, written, AtlasModel, AtlasSlot, GlyphAtlas,
};
use std::collections::HashMap;
use vstd::prelude::*;

verus! {

broadcast use vstd::std_specs::hash::group_hash_axioms;

/// Quarter-pixel quantization: each axis takes 2 bits.
pub const SUBPIXEL_BITS: u32 = 2;

pub const SUBPIXEL_STEPS: u32 = 4;

/// Compact key into the glyph cache.
#[derive(Clone, Copy, Debug, PartialEq, Eq, Hash, Structural)]
pub struct GlyphKey {
    /// Interned font blob and face index.
    pub font: u16,
    /// Interned variation coordinates and synthesis.
    pub coords: u16,
    pub glyph: u16,
    /// Bits of the effective physical-pixel size.
    pub size_bits: u32,
    /// Quantized subpixel offset: x in bits 0 and 1, y in bits 2 and 3.
    pub subpixel: u8,
    pub _pad: u8,
}

impl GlyphKey {
    /// The key as one number.
    pub open spec fn word(self) -> u128 {
        (self.font + 0x1_0000 * (self.coords + 0x1_0000 * (self.glyph + 0x1_0000 * (self.size_bits
            + 0x1_0000_0000 * (self.subpixel + 0x100 * self._pad))))) as u128
    }

    fn pack(&self) -> (r: u128)
        ensures
            r == self.word(),
    {
        let e: u128 = self.subpixel as u128 + 0x100 * self._pad as u128;
        let d: u128 = self.size_bits as u128 + 0x1_0000_0000 * e;
        let c: u128 = self.glyph as u128 + 0x1_0000 * d;
        let b: u128 = self.coords as u128 + 0x1_0000 * c;
        self.font as u128 + 0x1_0000 * b
    }
}

/// Different keys have different words.
pub proof fn law_keys_do_not_collide(a: GlyphKey, b: GlyphKey)
    requires
        a.word() == b.word(),
    ensures
        a == b,
{
    let a5: int = a.subpixel + 0x100 * a._pad;
    let b5: int = b.subpixel + 0x100 * b._pad;
    let a4: int = a.size_bits + 0x1_0000_0000 * a5;
    let b4: int = b.size_bits + 0x1_0000_0000 * b5;
    let a3: int = a.glyph + 0x1_0000 * a4;
    let b3: int = b.glyph + 0x1_0000 * b4;
    let a2: int = a.coords + 0x1_0000 * a3;
    let b2: int = b.coords + 0x1_0000 * b3;
    assert(a.font + 0x1_0000 * a2 == b.font + 0x1_0000 * b2);
    assert(a.font == b.font && a2 == b2);
    assert(a.coords == b.coords && a3 == b3);
    assert(a.glyph == b.glyph && a4 == b4);
    assert(a.size_bits == b.size_bits && a5 == b5);
    assert(a.subpixel == b.subpixel && a._pad == b._pad);
}

/// Where a rasterized glyph lives in the atlas, and how to place it.
#[derive(Clone, Copy, Debug, PartialEq, Eq)]
pub struct CachedGlyph {
    /// Allocation id; `None` for glyphs without area (spaces).
    pub alloc: Option<u32>,
    /// Page index within the alpha or the color set.
    pub page: u16,
    /// True for a color bitmap.
    pub color: bool,
    pub x: u16,
    pub y: u16,
    pub w: u16,
    pub h: u16,
    /// Bitmap offset relative to the glyph origin.
    pub left: i16,
    pub top: i16,
}

/// A cached glyph and the frame it was last emitted on.
#[derive(Clone, Copy, Debug, PartialEq, Eq)]
pub struct Entry {
    pub glyph: CachedGlyph,
    pub last_used: u32,
}

#[derive(Clone, Copy, Debug, PartialEq, Eq, Structural)]
pub struct CacheStats {
    pub hits: u64,
    pub misses: u64,
    /// Number of rasterizations performed.
    pub rasters: u64,
}

struct CoordsRow {
    coords: Vec<i16>,
    embolden: bool,
    skew: i16,
}

/// A row of interned variation coordinates and synthesis.
#[verifier::ext_equal]
pub struct CoordsModel {
    pub coords: Seq<i16>,
    pub embolden: bool,
    pub skew: i16,
}

pub struct GlyphCache {
    /// Font blob id and face index to compact font slot.
    fonts: HashMap<u128, u16>,
    /// Interned coordinate rows. The table is tiny, so it is scanned.
    coords: Vec<CoordsRow>,
    map: HashMap<u128, Entry>,
    /// Frame counter.
    tick: u32,
    pub stats: CacheStats,
}

/// What a cache holds.
#[verifier::ext_equal]
pub struct CacheModel {
    pub fonts: Map<u128, u16>,
    pub coords: Seq<CoordsModel>,
    pub entries: Map<u128, Entry>,
    pub tick: u32,
    pub stats: CacheStats,
}

/// A font as one number.
pub open spec fn font_word(blob_id: u64, face_index: u32) -> u128 {
    (face_index + 0x1_0000_0000 * blob_id) as u128
}

/// Different fonts have different words.
pub proof fn law_fonts_do_not_collide(a: u64, i: u32, b: u64, j: u32)
    requires
        font_word(a, i) == font_word(b, j),
    ensures
        a == b,
        i == j,
{
}

/// Index of a row in the table; its length where the table lacks it.
pub open spec fn row_index(table: Seq<CoordsModel>, row: CoordsModel) -> int
    decreases table.len(),
{
    if table.len() == 0 || table[0] == row {
        0
    } else {
        1 + row_index(table.drop_first(), row)
    }
}

impl CacheModel {
    pub open spec fn empty() -> CacheModel {
        CacheModel {
            fonts: Map::empty(),
            coords: Seq::empty(),
            entries: Map::empty(),
            tick: 0,
            stats: CacheStats { hits: 0, misses: 0, rasters: 0 },
        }
    }

    /// Fonts are numbered in the order in which they came, modulo the range
    /// of a slot.
    pub open spec fn wf(self) -> bool {
        &&& self.fonts.dom().finite()
        &&& self.entries.dom().finite()
        &&& self.fonts.len() <= 0x1_0000 ==> {
            &&& forall|k: u128| #[trigger]
                self.fonts.dom().contains(k) ==> self.fonts[k] < self.fonts.len()
            &&& forall|j: u128, k: u128|
                #![trigger self.fonts.dom().contains(j), self.fonts.dom().contains(k)]
                self.fonts.dom().contains(j) && self.fonts.dom().contains(k) && j != k
                    ==> self.fonts[j] != self.fonts[k]
        }
    }

    /// The cache on the next frame.
    pub open spec fn ticked(self) -> CacheModel {
        CacheModel { tick: ((self.tick + 1) % 0x1_0000_0000) as u32, ..self }
    }

    /// The slot of a font: the one it has, or the next number.
    pub open spec fn font_number(self, k: u128) -> u16 {
        if self.fonts.dom().contains(k) {
            self.fonts[k]
        } else {
            (self.fonts.len() as int % 0x1_0000) as u16
        }
    }

    pub open spec fn with_font(self, k: u128) -> CacheModel {
        if self.fonts.dom().contains(k) {
            self
        } else {
            CacheModel { fonts: self.fonts.insert(k, self.font_number(k)), ..self }
        }
    }

    /// The slot of a row of settings: the one it has, or the next number.
    pub open spec fn row_number(self, row: CoordsModel) -> u16 {
        (row_index(self.coords, row) % 0x1_0000) as u16
    }

    pub open spec fn with_row(self, row: CoordsModel) -> CacheModel {
        if row_index(self.coords, row) < self.coords.len() {
            self
        } else {
            CacheModel { coords: self.coords.push(row), ..self }
        }
    }

    /// The glyph under a key, if there is one.
    pub open spec fn found(self, k: u128) -> Option<CachedGlyph> {
        if self.entries.dom().contains(k) {
            Some(self.entries[k].glyph)
        } else {
            None
        }
    }

    /// The cache after a lookup: an entry that is found is stamped as used on
    /// this frame.
    pub open spec fn looked_up(self, k: u128) -> CacheModel {
        if self.entries.dom().contains(k) {
            CacheModel {
                entries: self.entries.insert(
                    k,
                    Entry { last_used: self.tick, ..self.entries[k] },
                ),
                stats: CacheStats { hits: (self.stats.hits + 1) as u64, ..self.stats },
                ..self
            }
        } else {
            CacheModel {
                stats: CacheStats { misses: (self.stats.misses + 1) as u64, ..self.stats },
                ..self
            }
        }
    }

    /// The cache with a glyph under a key, as used on this frame.
    pub open spec fn with_glyph(self, k: u128, glyph: CachedGlyph) -> CacheModel {
        CacheModel {
            entries: self.entries.insert(k, Entry { glyph, last_used: self.tick }),
            ..self
        }
    }

    /// The cache with one more rasterization counted.
    pub open spec fn rastered(self) -> CacheModel {
        CacheModel {
            stats: CacheStats { rasters: (self.stats.rasters + 1) as u64, ..self.stats },
            ..self
        }
    }

    /// True of an entry that can go: of the wanted set, and not used on the
    /// current frame.
    pub open spec fn evictable(self, k: u128, color: bool) -> bool {
        &&& self.entries.dom().contains(k)
        &&& self.entries[k].glyph.color == color
        &&& self.entries[k].last_used < self.tick
    }

    /// True of an entry that goes first: none that can go was used before
    /// it.
    pub open spec fn oldest(self, k: u128, color: bool) -> bool {
        &&& self.evictable(k, color)
        &&& forall|j: u128| #[trigger]
            self.evictable(j, color) ==> self.entries[k].last_used <= self.entries[j].last_used
    }

    /// The slot of every entry is in use, and no other entry's.
    pub open spec fn backed(self, atlas: AtlasModel) -> bool {
        &&& forall|k: u128| #[trigger]
            self.entries.dom().contains(k) ==> (self.entries[k].glyph.alloc matches Some(a)
                ==> atlas.holds(self.entries[k].glyph.color, self.entries[k].glyph.page, a))
        &&& forall|j: u128, k: u128|
            #![trigger self.entries.dom().contains(j), self.entries.dom().contains(k)]
            self.entries.dom().contains(j) && self.entries.dom().contains(k) && j != k
                ==> !same_slot(self.entries[j].glyph, self.entries[k].glyph)
    }

    /// No entry has the slot of a glyph.
    pub open spec fn unshared(self, g: CachedGlyph) -> bool {
        forall|k: u128| #[trigger]
            self.entries.dom().contains(k) ==> !same_slot(self.entries[k].glyph, g)
    }
}

pub open spec fn same_slot(a: CachedGlyph, b: CachedGlyph) -> bool {
    a.alloc is Some && a.alloc == b.alloc && a.page == b.page && a.color == b.color
}

fn same_coords(a: &Vec<i16>, b: &[i16]) -> (r: bool)
    ensures
        r == (a@ == b@),
{
    if a.len() != b.len() {
        return false;
    }
    let mut i: usize = 0;
    while i < a.len()
        invariant
            i <= a@.len(),
            a@.len() == b@.len(),
            forall|k: int| 0 <= k < i ==> a@[k] == b@[k],
        decreases a@.len() - i,
    {
        if a[i] != b[i] {
            return false;
        }
        i = i + 1;
    }
    proof {
        assert(a@ =~= b@);
    }
    true
}

proof fn lemma_row_index_is(table: Seq<CoordsModel>, row: CoordsModel, k: int)
    requires
        0 <= k <= table.len(),
        forall|i: int| 0 <= i < k ==> table[i] != row,
        k < table.len() ==> table[k] == row,
    ensures
        row_index(table, row) == k,
    decreases table.len(),
{
    if table.len() > 0 && table[0] != row {
        let t = table.drop_first();
        assert forall|i: int| 0 <= i < k - 1 implies t[i] != row by {
            assert(t[i] == table[i + 1]);
        }
        lemma_row_index_is(t, row, k - 1);
    }
}

impl GlyphCache {
    spec fn rows(&self) -> Seq<CoordsModel> {
        Seq::new(
            self.coords@.len(),
            |i: int|
                CoordsModel {
                    coords: self.coords@[i].coords@,
                    embolden: self.coords@[i].embolden,
                    skew: self.coords@[i].skew,
                },
        )
    }

    pub closed spec fn model(&self) -> CacheModel {
        CacheModel {
            fonts: self.fonts@,
            coords: self.rows(),
            entries: self.map@,
            tick: self.tick,
            stats: self.stats,
        }
    }

    pub fn new() -> (r: GlyphCache)
        ensures
            r.model() == CacheModel::empty(),
            r.model().wf(),
    {
        let r = GlyphCache {
            fonts: HashMap::new(),
            coords: Vec::new(),
            map: HashMap::new(),
            tick: 0,
            stats: CacheStats { hits: 0, misses: 0, rasters: 0 },
        };
        proof {
            assert(r.model() =~= CacheModel::empty());
        }
        r
    }

    /// Advances the frame counter. Called once per paint pass.
    pub fn begin_frame(&mut self)
        requires
            old(self).model().wf(),
        ensures
            final(self).model().wf(),
            final(self).model() == old(self).model().ticked(),
    {
        let ghost start = self.model();
        self.tick = self.tick.wrapping_add(1);
        proof {
            assert(self.model() =~= (CacheModel {
                tick: ((start.tick + 1) % 0x1_0000_0000) as u32,
                ..start
            }));
        }
    }

    /// Interns a font to a slot: the one it has, or the next number.
    pub fn font_slot(&mut self, blob_id: u64, face_index: u32) -> (r: u16)
        requires
            old(self).model().wf(),
        ensures
            final(self).model().wf(),
            r == old(self).model().font_number(font_word(blob_id, face_index)),
            final(self).model() == old(self).model().with_font(font_word(blob_id, face_index)),
    {
        let ghost start = self.model();
        let k: u128 = face_index as u128 + 0x1_0000_0000 * blob_id as u128;
        if let Some(slot) = self.fonts.get(&k) {
            return *slot;
        }
        let n: u16 = (self.fonts.len() % 0x1_0000) as u16;
        self.fonts.insert(k, n);
        proof {
            assert(self.model() =~= (CacheModel { fonts: start.fonts.insert(k, n), ..start }));
        }
        n
    }

    /// Interns variation coordinates and synthesis to a slot.
    pub fn coords_slot(&mut self, coords: &[i16], embolden: bool, skew: i16) -> (r: u16)
        requires
            old(self).model().wf(),
        ensures
            final(self).model().wf(),
            ({
                let row = CoordsModel { coords: coords@, embolden, skew };
                &&& r == old(self).model().row_number(row)
                &&& final(self).model() == old(self).model().with_row(row)
            }),
    {
        let ghost start = self.model();
        let ghost row = CoordsModel { coords: coords@, embolden, skew };
        let mut i: usize = 0;
        while i < self.coords.len()
            invariant
                i <= self.coords@.len(),
                *self == *old(self),
                start == self.model(),
                start.wf(),
                row == (CoordsModel { coords: coords@, embolden, skew }),
                forall|k: int| 0 <= k < i ==> start.coords[k] != row,
            decreases self.coords@.len() - i,
        {
            let r = &self.coords[i];
            if r.embolden == embolden && r.skew == skew && same_coords(&r.coords, coords) {
                proof {
                    assert(start.coords[i as int] =~= row);
                    lemma_row_index_is(start.coords, row, i as int);
                }
                return (i % 0x1_0000) as u16;
            }
            proof {
                assert(start.coords[i as int] != row);
            }
            i = i + 1;
        }
        proof {
            lemma_row_index_is(start.coords, row, i as int);
        }
        let slot: u16 = (self.coords.len() % 0x1_0000) as u16;
        let mut copy: Vec<i16> = Vec::new();
        let mut j: usize = 0;
        while j < coords.len()
            invariant
                j <= coords@.len(),
                copy@ == coords@.take(j as int),
            decreases coords@.len() - j,
        {
            copy.push(coords[j]);
            proof {
                assert(coords@.take(j + 1) =~= coords@.take(j as int).push(coords@[j as int]));
            }
            j = j + 1;
        }
        proof {
            assert(coords@.take(j as int) =~= coords@);
        }
        self.coords.push(CoordsRow { coords: copy, embolden, skew });
        proof {
            assert(self.rows() =~= start.coords.push(row));
            assert(self.model() =~= (CacheModel { coords: start.coords.push(row), ..start }));
        }
        slot
    }

    /// Looks a glyph up, and stamps it as used on this frame.
    pub fn get(&mut self, key: &GlyphKey) -> (r: Option<CachedGlyph>)
        requires
            old(self).model().wf(),
            old(self).model().stats.hits < u64::MAX,
            old(self).model().stats.misses < u64::MAX,
        ensures
            final(self).model().wf(),
            r == old(self).model().found(key.word()),
            final(self).model() == old(self).model().looked_up(key.word()),
    {
        let ghost start = self.model();
        let k: u128 = key.pack();
        let found: Option<Entry> = match self.map.get(&k) {
            Some(e) => Some(*e),
            None => None,
        };
        match found {
            Some(e) => {
                self.stats.hits = self.stats.hits + 1;
                self.map.insert(k, Entry { glyph: e.glyph, last_used: self.tick });
                proof {
                    assert(self.model() =~= (CacheModel {
                        entries: start.entries.insert(
                            k,
                            Entry { last_used: start.tick, ..start.entries[k] },
                        ),
                        stats: CacheStats { hits: (start.stats.hits + 1) as u64, ..start.stats },
                        ..start
                    }));
                }
                Some(e.glyph)
            },
            None => {
                self.stats.misses = self.stats.misses + 1;
                proof {
                    assert(self.model() =~= (CacheModel {
                        stats: CacheStats {
                            misses: (start.stats.misses + 1) as u64,
                            ..start.stats
                        },
                        ..start
                    }));
                }
                None
            },
        }
    }

    /// Caches a glyph, as used on this frame.
    pub fn insert(&mut self, key: GlyphKey, glyph: CachedGlyph)
        requires
            old(self).model().wf(),
        ensures
            final(self).model().wf(),
            final(self).model() == old(self).model().with_glyph(key.word(), glyph),
    {
        let ghost start = self.model();
        let k: u128 = key.pack();
        self.map.insert(k, Entry { glyph, last_used: self.tick });
        proof {
            assert(self.model() =~= (CacheModel {
                entries: start.entries.insert(k, Entry { glyph, last_used: start.tick }),
                ..start
            }));
        }
    }

    /// Counts one rasterization.
    pub fn note_raster(&mut self)
        requires
            old(self).model().wf(),
            old(self).model().stats.rasters < u64::MAX,
        ensures
            final(self).model().wf(),
            final(self).model() == old(self).model().rastered(),
    {
        let ghost start = self.model();
        self.stats.rasters = self.stats.rasters + 1;
        proof {
            assert(self.model() =~= (CacheModel {
                stats: CacheStats { rasters: (start.stats.rasters + 1) as u64, ..start.stats },
                ..start
            }));
        }
    }

    /// The entry that goes first, if any can go.
    fn victim(&self, color: bool) -> (r: Option<(u128, Entry)>)
        ensures
            match r {
                Some((k, e)) => self.model().oldest(k, color) && e == self.model().entries[k],
                None => forall|k: u128| !self.model().evictable(k, color),
            },
    {
        let ghost m = self.model();
        let mut best: Option<(u128, Entry)> = None;
        for kv in it: self.map.iter()
            invariant
                m == self.model(),
                m.entries == self.map@,
                match best {
                    Some((k, e)) => {
                        &&& m.evictable(k, color)
                        &&& e == m.entries[k]
                        &&& forall|i: int|
                            0 <= i < it.index() ==> (m.evictable(
                                *(#[trigger] it.seq()[i]).0,
                                color,
                            ) ==> e.last_used <= it.seq()[i].1.last_used)
                    },
                    None => forall|i: int|
                        0 <= i < it.index() ==> !m.evictable(*(#[trigger] it.seq()[i]).0, color),
                },
        {
            let (k, e) = kv;
            if e.glyph.color == color && e.last_used < self.tick {
                let better: bool = match best {
                    Some((_, b)) => e.last_used < b.last_used,
                    None => true,
                };
                if better {
                    best = Some((*k, *e));
                }
            }
        }
        best
    }

    /// Evicts the least-recently-used entry of a page set and frees its
    /// slot. Entries used on the current frame stay. False where nothing can
    /// go.
    pub fn evict_oldest(&mut self, atlas: &mut GlyphAtlas, color: bool) -> (r: bool)
        requires
            old(self).model().wf(),
            old(atlas).wf(),
            old(self).model().backed(old(atlas).model()),
            old(atlas).model().stats.evictions < u64::MAX,
        ensures
            final(self).model().wf(),
            final(atlas).wf(),
            final(self).model().backed(final(atlas).model()),
            if r {
                exists|k: u128|
                    evicted(
                        old(self).model(),
                        final(self).model(),
                        old(atlas).model(),
                        final(atlas).model(),
                        color,
                        k,
                    )
            } else {
                &&& forall|k: u128| !old(self).model().evictable(k, color)
                &&& final(self).model() == old(self).model()
                &&& final(atlas).model() == old(atlas).model()
            },
    {
        let ghost start = self.model();
        let ghost before = atlas.model();
        let (key, entry) = match self.victim(color) {
            Some(v) => v,
            None => {
                return false;
            },
        };
        let _ = self.map.remove(&key);
        proof {
            assert(self.model() =~= (CacheModel {
                entries: start.entries.remove(key),
                ..start
            }));
        }
        if let Some(alloc) = entry.glyph.alloc {
            proof {
                assert(start.entries.dom().contains(key));
            }
            atlas.free(
                color,
                AtlasSlot {
                    alloc,
                    page: entry.glyph.page,
                    x: entry.glyph.x,
                    y: entry.glyph.y,
                },
            );
        }
        proof {
            let now = self.model();
            let after = atlas.model();
            assert(now.backed(after)) by {
                assert forall|k: u128| #[trigger] now.entries.dom().contains(k) implies (
                now.entries[k].glyph.alloc matches Some(a) ==> after.holds(
                    now.entries[k].glyph.color,
                    now.entries[k].glyph.page,
                    a,
                )) by {
                    assert(start.entries.dom().contains(k));
                    assert(start.entries.dom().contains(key));
                    assert(!same_slot(start.entries[key].glyph, start.entries[k].glyph));
                }
                assert forall|j: u128, k: u128|
                    #![trigger now.entries.dom().contains(j), now.entries.dom().contains(k)]
                    now.entries.dom().contains(j) && now.entries.dom().contains(k) && j
                        != k implies !same_slot(now.entries[j].glyph, now.entries[k].glyph) by {
                    assert(start.entries.dom().contains(j) && start.entries.dom().contains(k));
                }
            }
            assert(evicted(start, now, before, after, color, key));
        }
        true
    }

    pub fn counters(&self) -> (r: CacheStats)
        ensures
            r == self.model().stats,
    {
        self.stats
    }

    pub fn len(&self) -> (r: usize)
        requires
            self.model().wf(),
        ensures
            r == self.model().entries.len(),
    {
        self.map.len()
    }

    pub fn is_empty(&self) -> (r: bool)
        requires
            self.model().wf(),
        ensures
            r == (self.model().entries.len() == 0),
    {
        self.map.len() == 0
    }
}

/// One entry, least recently used among those that can go, went, and its
/// slot with it.
pub open spec fn evicted(
    before: CacheModel,
    after: CacheModel,
    atlas: AtlasModel,
    atlas_after: AtlasModel,
    color: bool,
    k: u128,
) -> bool {
    &&& before.oldest(k, color)
    &&& after == (CacheModel { entries: before.entries.remove(k), ..before })
    &&& match before.entries[k].glyph.alloc {
        Some(a) => gave_back(atlas, atlas_after, color, before.entries[k].glyph.page, a),
        None => atlas_after == atlas,
    }
}

/// Splits a coordinate, given in quarter pixels, into whole pixels and the
/// quarter that is left, counted from the pixel below.
pub fn quantize_subpixel(quarters: i32) -> (r: (i32, u8))
    ensures
        r.0 * 4 + r.1 == quarters,
        r.1 < SUBPIXEL_STEPS,
{
    let q: i64 = quarters as i64 + 0x8000_0000;
    let whole: i64 = q / 4 - 0x2000_0000;
    let part: i64 = q % 4;
    (whole as i32, part as u8)
}

/// Evicting an entry frees its slot: a bitmap of a size that the slot took is
/// accepted again.
pub proof fn law_eviction_frees_atlas_space(
    before: CacheModel,
    after: CacheModel,
    atlas: AtlasModel,
    atlas_after: AtlasModel,
    color: bool,
    k: u128,
    w: int,
    h: int,
    again: AtlasModel,
    slot: Option<AtlasSlot>,
    src: Seq<u8>,
)
    requires
        atlas.wf(),
        before.backed(atlas),
        evicted(before, after, atlas, atlas_after, color, k),
        before.entries[k].glyph.alloc matches Some(a) && atlas.takes_again(
            color,
            before.entries[k].glyph.page,
            a,
            w,
            h,
        ),
        written(atlas_after, again, color, slot, w, h, src),
    ensures
        slot is Some,
{
    let g = before.entries[k].glyph;
    if let Some(a) = g.alloc {
        assert(before.entries.dom().contains(k));
        law_slot_given_back_takes_the_bitmap_again(
            atlas,
            atlas_after,
            color,
            g.page,
            a,
            w,
            h,
            again,
            slot,
            src,
        );
    }
}

/// Entries used on the current frame are never evicted: a glyph cannot be
/// freed while a pass is still drawing it.
pub proof fn law_current_frame_is_safe(
    before: CacheModel,
    after: CacheModel,
    atlas: AtlasModel,
    atlas_after: AtlasModel,
    color: bool,
    k: u128,
    j: u128,
)
    requires
        evicted(before, after, atlas, atlas_after, color, k),
        before.entries.dom().contains(j),
        before.entries[j].last_used == before.tick,
    ensures
        after.entries.dom().contains(j),
        after.entries[j] == before.entries[j],
{
}

/// A lookup stamps an entry as used on this frame, so that it is safe until
/// the next one starts.
pub proof fn law_lookup_protects(m: CacheModel, k: u128, color: bool)
    requires
        m.entries.dom().contains(k),
    ensures
        !(CacheModel {
            entries: m.entries.insert(k, Entry { last_used: m.tick, ..m.entries[k] }),
            ..m
        }).evictable(k, color),
{
}

/// Fonts that were told apart keep different slots, up to the number of
/// slots there are.
pub proof fn law_fonts_keep_their_slots(m: CacheModel, j: u128, k: u128)
    requires
        m.wf(),
        m.fonts.len() <= 0x1_0000,
        m.fonts.dom().contains(j),
        m.fonts.dom().contains(k),
        j != k,
    ensures
        m.fonts[j] != m.fonts[k],
{
}

impl Default for GlyphCache {
    fn default() -> (r: GlyphCache)
        ensures
            r.model() == CacheModel::empty(),
            r.model().wf(),
    {
        GlyphCache::new()
    }
}

} // verus!
