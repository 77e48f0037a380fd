use craie::text::atlas::{GlyphAtlas, GUTTER};
use craie::text::cache::{quantize_subpixel, CachedGlyph, GlyphCache, GlyphKey};
use craie::text::engine::{
    glyph_key, glyph_quad, insert_into_atlas, GlyphStep, GlyphStore, OutOfNumbers, Rastered, RunFont,
};

fn key(g: u16) -> GlyphKey {
    GlyphKey {
        font: 0,
        coords: 0,
        glyph: g,
        size_bits: 0,
        subpixel: 0,
        _pad: 0,
    }
}

fn font(size: f32) -> RunFont {
    RunFont {
        blob_id: 77,
        face_index: 0,
        coords: vec![100, -5],
        embolden: false,
        skew: 0,
        size_bits: size.to_bits(),
    }
}

fn square(side: u32, byte: u8) -> Rastered {
    Rastered {
        width: side,
        height: side,
        left: 1,
        top: 9,
        color: false,
        data: vec![byte; (side * side) as usize],
    }
}

/// A capped, full page set returns None; evicting the oldest cache
/// entry frees a slot and the next write lands.
#[test]
fn eviction_frees_atlas_space() {
    let mut atlas = GlyphAtlas::for_test(64, 1, 1);
    let mut cache = GlyphCache::new();
    let px = [7u8; 16 * 16];

    // Fill the single 64x64 alpha page (16x16 glyphs + 2px gutter).
    let mut n = 0u16;
    while let Some(slot) = atlas.write_alpha(16, 16, &px) {
        cache.insert(
            key(n),
            CachedGlyph {
                alloc: Some(slot.alloc),
                page: slot.page,
                color: false,
                x: slot.x,
                y: slot.y,
                w: 16,
                h: 16,
                left: 0,
                top: 0,
            },
        );
        n += 1;
        cache.begin_frame();
    }
    assert!(n > 0, "test atlas must hold at least one glyph");
    assert_eq!(atlas.alpha_pages(), 1);

    // Full and capped: the next write must fail.
    assert!(atlas.write_alpha(16, 16, &px).is_none());

    // Evict the oldest (everything was stamped before this frame):
    // the freed slot accepts the write again.
    assert!(cache.evict_oldest(&mut atlas, false));
    assert!(atlas.write_alpha(16, 16, &px).is_some());
    assert_eq!(atlas.stats.evictions, 1);
}

/// Entries stamped on the current frame are never evicted — a glyph
/// can't be freed while this pass is still drawing it.
#[test]
fn current_frame_entries_are_safe() {
    let mut atlas = GlyphAtlas::for_test(64, 1, 1);
    let mut cache = GlyphCache::new();
    let slot = atlas.write_alpha(16, 16, &[1u8; 256]).unwrap();
    cache.insert(
        key(0),
        CachedGlyph {
            alloc: Some(slot.alloc),
            page: slot.page,
            color: false,
            x: slot.x,
            y: slot.y,
            w: 16,
            h: 16,
            left: 0,
            top: 0,
        },
    );
    // No begin_frame: the entry sits on the current tick.
    assert!(!cache.evict_oldest(&mut atlas, false));
    assert_eq!(atlas.stats.evictions, 0);
}

#[test]
fn writes_land_on_the_page_inside_a_gutter() {
    let mut atlas = GlyphAtlas::for_test(32, 1, 1);
    let px: Vec<u8> = (1..=6).collect();
    let slot = atlas.write_alpha(3, 2, &px).unwrap();
    assert!(slot.x as u32 >= GUTTER && slot.y as u32 >= GUTTER);
    let (data, dirty) = atlas.page_bytes(false, 0);
    let (x, y) = (slot.x as usize, slot.y as usize);
    assert_eq!(&data[y * 32 + x..y * 32 + x + 3], &[1, 2, 3]);
    assert_eq!(&data[(y + 1) * 32 + x..(y + 1) * 32 + x + 3], &[4, 5, 6]);
    assert_eq!(data.iter().filter(|b| **b != 0).count(), 6);
    let dirty = dirty.unwrap();
    assert_eq!((dirty.min_x, dirty.max_x), (slot.x as u32, slot.x as u32 + 3));
    assert_eq!((dirty.min_y, dirty.max_y), (slot.y as u32, slot.y as u32 + 2));
    atlas.clear_dirty();
    assert!(atlas.page_bytes(false, 0).1.is_none());
    assert_eq!(atlas.page_used(false, 0), Some(dirty));
}

#[test]
fn slots_do_not_overlap() {
    let mut atlas = GlyphAtlas::for_test(64, 1, 1);
    let mut seen: Vec<(u16, u16)> = Vec::new();
    while let Some(s) = atlas.write_alpha(10, 10, &[1u8; 100]) {
        for (x, y) in &seen {
            assert!(s.x >= x + 10 || *x >= s.x + 10 || s.y >= y + 10 || *y >= s.y + 10);
        }
        seen.push((s.x, s.y));
    }
    assert!(seen.len() > 4);
    assert_eq!(atlas.stats.allocations, seen.len() as u64);
}

#[test]
fn pages_grow_up_to_their_cap() {
    let mut atlas = GlyphAtlas::for_test(16, 2, 1);
    assert!(atlas.write_alpha(14, 14, &[1u8; 196]).is_some());
    assert!(atlas.write_alpha(14, 14, &[1u8; 196]).is_some());
    assert_eq!(atlas.alpha_pages(), 2);
    assert!(atlas.write_alpha(14, 14, &[1u8; 196]).is_none());
    assert!(atlas.write_color(14, 14, &[1u8; 784]).is_some());
    assert_eq!(atlas.color_pages(), 1);
    assert_eq!(atlas.stats.alpha_pages, 2);
    // Larger than a page: never.
    let mut small = GlyphAtlas::for_test(16, 1, 1);
    assert!(small.write_alpha(15, 15, &[1u8; 225]).is_none());
}

#[test]
fn lookups_count_and_protect() {
    let mut atlas = GlyphAtlas::for_test(64, 1, 1);
    let mut cache = GlyphCache::new();
    let slot = atlas.write_alpha(4, 4, &[1u8; 16]).unwrap();
    cache.insert(
        key(3),
        CachedGlyph {
            alloc: Some(slot.alloc),
            page: slot.page,
            color: false,
            x: slot.x,
            y: slot.y,
            w: 4,
            h: 4,
            left: 0,
            top: 0,
        },
    );
    cache.begin_frame();
    assert!(cache.get(&key(4)).is_none());
    assert!(cache.get(&key(3)).is_some());
    assert_eq!((cache.stats.hits, cache.stats.misses), (1, 1));
    // The lookup stamped it on this frame.
    assert!(!cache.evict_oldest(&mut atlas, false));
    cache.begin_frame();
    assert!(cache.evict_oldest(&mut atlas, false));
    assert!(cache.is_empty());
    assert_eq!(cache.len(), 0);
}

#[test]
fn the_least_recently_used_goes_first() {
    let mut atlas = GlyphAtlas::for_test(64, 1, 1);
    let mut cache = GlyphCache::new();
    for g in 0..3u16 {
        let r = square(8, g as u8 + 1);
        let glyph = insert_into_atlas(&mut atlas, &mut cache, &r).unwrap();
        cache.insert(key(g), glyph);
        cache.begin_frame();
    }
    assert!(cache.get(&key(0)).is_some());
    cache.begin_frame();
    assert!(cache.evict_oldest(&mut atlas, false));
    assert!(cache.get(&key(1)).is_none());
    assert!(cache.get(&key(0)).is_some());
    assert!(cache.get(&key(2)).is_some());
    // Nothing of the color set is there to go.
    assert!(!cache.evict_oldest(&mut atlas, true));
}

#[test]
fn fonts_and_settings_are_interned() {
    let mut cache = GlyphCache::new();
    assert_eq!(cache.font_slot(9, 0), 0);
    assert_eq!(cache.font_slot(9, 1), 1);
    assert_eq!(cache.font_slot(9, 0), 0);
    assert_eq!(cache.coords_slot(&[1, 2], false, 0), 0);
    assert_eq!(cache.coords_slot(&[1, 2], true, 0), 1);
    assert_eq!(cache.coords_slot(&[1, 2], false, 3), 2);
    assert_eq!(cache.coords_slot(&[1], false, 0), 3);
    assert_eq!(cache.coords_slot(&[1, 2], true, 0), 1);
}

#[test]
fn quarters_split_downward() {
    assert_eq!(quantize_subpixel(0), (0, 0));
    assert_eq!(quantize_subpixel(7), (1, 3));
    assert_eq!(quantize_subpixel(-1), (-1, 3));
    assert_eq!(quantize_subpixel(-4), (-1, 0));
    assert_eq!(quantize_subpixel(i32::MIN), (-0x2000_0000, 0));
    assert_eq!(glyph_key(1, 2, 3, 4, 3, 2).subpixel, 11);
}

#[test]
fn a_full_atlas_makes_room_for_the_next_frame() {
    let mut store = GlyphStore {
        cache: GlyphCache::new(),
        atlas: GlyphAtlas::for_test(64, 1, 1),
    };
    let run = store.begin_run(&font(16.0));
    let mut n = 0u16;
    loop {
        let key = match store.step(run, n, 4 * n as i32, 0) {
            GlyphStep::Raster(key) => key,
            _ => panic!("not cached yet"),
        };
        let q = store.install(key, 4 * n as i32, 0, &square(16, 5));
        if q.is_none() {
            break;
        }
        n += 1;
    }
    assert!(n > 0);
    // Everything was drawn on this frame: nothing could go.
    assert_eq!(store.cache.len(), n as usize);
    store.cache.begin_frame();
    match store.step(run, 900, 0, 0) {
        GlyphStep::Raster(key) => assert!(store.install(key, 0, 0, &square(16, 6)).is_some()),
        _ => panic!("not cached yet"),
    }
    assert_eq!(store.atlas.stats.evictions, 1);
}

#[test]
fn installed_glyphs_are_drawn_from_the_cache() {
    let mut store = GlyphStore::new();
    let run = store.begin_run(&font(20.0));
    let (x, y) = (41, -6);
    let key = match store.step(run, 12, x, y) {
        GlyphStep::Raster(key) => key,
        _ => panic!("first use has to be rasterized"),
    };
    assert_eq!(key.subpixel, 1 + 4 * 2);
    let q = store.install(key, x, y, &square(6, 9)).unwrap();
    assert_eq!((q.x, q.y), (10 + 1, -2 - 9));
    assert_eq!((q.w, q.h), (6, 6));
    assert_eq!((q.u1 - q.u0, q.v1 - q.v0), (6, 6));
    assert_eq!(store.cache.stats.rasters, 1);
    match store.step(run, 12, x, y) {
        GlyphStep::Draw(again) => assert_eq!(again, q),
        _ => panic!("second use is cached"),
    }
    // A whole pixel further the same bitmap serves.
    match store.step(run, 12, x + 4, y) {
        GlyphStep::Draw(again) => assert_eq!(again.x, q.x + 1),
        _ => panic!("second use is cached"),
    }
    assert_eq!(store.cache.stats.rasters, 1);
    assert_eq!(store.begin_emit().cache_hits_before, 2);
}

#[test]
fn blank_glyphs_take_no_room() {
    let mut store = GlyphStore::new();
    let run = store.begin_run(&font(20.0));
    let space = Rastered {
        width: 0,
        height: 0,
        left: 0,
        top: 0,
        color: false,
        data: Vec::new(),
    };
    let key = match store.step(run, 3, 0, 0) {
        GlyphStep::Raster(key) => key,
        _ => panic!("first use has to be rasterized"),
    };
    assert!(store.install(key, 0, 0, &space).is_none());
    assert_eq!(store.atlas.alpha_pages(), 0);
    assert!(matches!(store.step(run, 3, 0, 0), GlyphStep::Blank));
}

#[test]
fn quads_offset_by_their_placement() {
    let g = CachedGlyph {
        alloc: Some(0),
        page: 2,
        color: true,
        x: 10,
        y: 20,
        w: 3,
        h: 4,
        left: -2,
        top: 7,
    };
    let q = glyph_quad(100, 200, &g).unwrap();
    assert_eq!((q.x, q.y), (98, 193));
    assert_eq!((q.u0, q.v0, q.u1, q.v1), (10, 20, 13, 24));
    assert_eq!((q.page, q.color), (2, true));
}

#[test]
fn one_eviction_is_enough_where_one_makes_room() {
    let mut atlas = GlyphAtlas::for_test(64, 1, 1);
    let mut cache = GlyphCache::new();
    let mut n = 0u16;
    while let Some(slot) = atlas.write_alpha(16, 16, &[3u8; 256]) {
        let glyph = CachedGlyph {
            alloc: Some(slot.alloc),
            page: slot.page,
            color: false,
            x: slot.x,
            y: slot.y,
            w: 16,
            h: 16,
            left: 0,
            top: 0,
        };
        cache.insert(key(n), glyph);
        cache.begin_frame();
        n += 1;
    }
    assert!(n > 2);
    // The first was drawn again, so the second is the oldest.
    assert!(cache.get(&key(0)).is_some());
    cache.begin_frame();
    let g = insert_into_atlas(&mut atlas, &mut cache, &square(16, 9)).unwrap();
    assert_eq!(atlas.stats.evictions, 1);
    assert_eq!(cache.len(), n as usize - 1);
    assert!(cache.get(&key(1)).is_none());
    assert!(cache.get(&key(0)).is_some());
    assert!(cache.get(&key(2)).is_some());
    assert_eq!((g.w, g.h, g.left, g.top), (16, 16, 1, 9));
}

#[test]
fn nothing_goes_where_there_is_room() {
    let mut atlas = GlyphAtlas::for_test(64, 1, 1);
    let mut cache = GlyphCache::new();
    let first = insert_into_atlas(&mut atlas, &mut cache, &square(16, 1)).unwrap();
    cache.insert(key(0), first);
    cache.begin_frame();
    assert!(insert_into_atlas(&mut atlas, &mut cache, &square(16, 2)).is_some());
    assert_eq!(atlas.stats.evictions, 0);
    assert_eq!(cache.len(), 1);
}

#[test]
fn a_bitmap_too_large_for_a_page_is_refused() {
    let mut atlas = GlyphAtlas::for_test(64, 2, 1);
    let mut cache = GlyphCache::new();
    let small = insert_into_atlas(&mut atlas, &mut cache, &square(8, 1)).unwrap();
    cache.insert(key(0), small);
    cache.begin_frame();
    assert!(insert_into_atlas(&mut atlas, &mut cache, &square(80, 2)).is_none());
    // All that could go went, and the set grew to its cap.
    assert_eq!(cache.len(), 0);
    assert_eq!(atlas.alpha_pages(), 2);
    assert!(insert_into_atlas(&mut atlas, &mut cache, &square(60, 3)).is_some());
}

#[test]
fn a_slot_given_back_takes_its_size_again() {
    let mut atlas = GlyphAtlas::for_test(64, 1, 1);
    let mut slots = Vec::new();
    while let Some(slot) = atlas.write_alpha(14, 14, &[1u8; 196]) {
        slots.push(slot);
    }
    assert!(slots.len() > 3);
    for i in 0..slots.len() {
        assert!(atlas.write_alpha(14, 14, &[2u8; 196]).is_none());
        atlas.free(false, slots[i]);
        assert!(atlas.write_alpha(14, 14, &[2u8; 196]).is_some());
    }
    assert_eq!(atlas.alpha_pages(), 1);
}

#[test]
fn the_first_page_with_room_is_taken() {
    let mut atlas = GlyphAtlas::for_test(64, 3, 1);
    let mut slots = Vec::new();
    while slots.len() < 40 {
        match atlas.write_alpha(16, 16, &[1u8; 256]) {
            Some(slot) => slots.push(slot),
            None => break,
        }
    }
    let on_first = slots.iter().position(|s| s.page == 0).unwrap();
    let on_second = slots.iter().position(|s| s.page == 1).unwrap();
    assert!(atlas.write_alpha(16, 16, &[1u8; 256]).is_none());
    atlas.free(false, slots[on_second]);
    atlas.free(false, slots[on_first]);
    assert_eq!(atlas.write_alpha(16, 16, &[1u8; 256]).unwrap().page, 0);
    assert_eq!(atlas.write_alpha(16, 16, &[1u8; 256]).unwrap().page, 1);
    assert!(atlas.write_alpha(16, 16, &[1u8; 256]).is_none());
}

#[test]
fn a_page_goes_on_while_it_has_numbers() {
    let mut atlas = GlyphAtlas::for_test(2048, 2, 1);
    let mut last = 0u32;
    for _ in 0..40_000 {
        let slot = atlas.write_alpha(1, 1, &[9]).unwrap();
        assert_eq!(slot.page, 0);
        last = slot.alloc;
    }
    assert_eq!(atlas.alpha_pages(), 1);
    assert_eq!(atlas.stats.allocations, 40_000);
    assert!(last & 0xFFFF > 30_719);
}

#[test]
fn a_page_that_held_many_slots_is_no_longer_light() {
    let mut store = GlyphStore {
        cache: GlyphCache::new(),
        atlas: GlyphAtlas::for_test(2048, 1, 1),
    };
    let mut first = None;
    for _ in 0..32_638 {
        let slot = store.atlas.write_alpha(1, 1, &[9]).unwrap();
        first.get_or_insert(slot);
    }
    assert!(store.atlas.is_light(false));
    let q = store.try_install(key(1), 0, 0, &square(8, 1)).unwrap().unwrap();
    assert_eq!((q.page, q.w, q.h), (0, 8, 8));
    assert!(!store.atlas.is_light(false));
    assert!(store.atlas.is_light(true));
    // What was held counts, not what is held.
    store.atlas.free(false, first.unwrap());
    assert!(!store.atlas.is_light(false));
    let before = (store.cache.len(), store.atlas.stats.allocations, store.cache.stats.rasters);
    assert_eq!(store.try_install(key(2), 0, 0, &square(8, 1)), Err(OutOfNumbers));
    assert_eq!(
        before,
        (store.cache.len(), store.atlas.stats.allocations, store.cache.stats.rasters)
    );
    // A bitmap without area needs no number.
    assert_eq!(store.try_install(key(3), 0, 0, &square(0, 1)), Ok(None));
    // The numbers had not run out yet.
    assert!(store.install(key(2), 0, 0, &square(8, 1)).is_some());
}
