use craie::geom::RectPx;
use craie::gpu::{
    growth, instance_capacity, next_power_of_two, repack, sync_atlas, upload_rect, Caps, Rows,
};
use craie::text::atlas::GlyphAtlas;

#[test]
fn powers_of_two_round_up() {
    assert_eq!(next_power_of_two(0), 1);
    assert_eq!(next_power_of_two(1), 1);
    assert_eq!(next_power_of_two(3), 4);
    assert_eq!(next_power_of_two(4096), 4096);
    assert_eq!(next_power_of_two(4097), 8192);
    assert_eq!(next_power_of_two(1 << 63), 1 << 63);
}

#[test]
fn texture_arrays_grow_in_powers() {
    assert_eq!(growth(None, 0, 0), Some(Caps { alpha: 1, color: 1 }));
    assert_eq!(growth(None, 3, 1), Some(Caps { alpha: 4, color: 1 }));
    let caps = Some(Caps { alpha: 4, color: 1 });
    assert_eq!(growth(caps, 4, 1), None);
    assert_eq!(growth(caps, 5, 1), Some(Caps { alpha: 8, color: 1 }));
    assert_eq!(growth(caps, 1, 2), Some(Caps { alpha: 4, color: 2 }));
}

#[test]
fn instance_buffers_grow_in_powers() {
    assert_eq!(instance_capacity(None, 0), Some(4096));
    assert_eq!(instance_capacity(None, 5000), Some(8192));
    assert_eq!(instance_capacity(Some(8192), 8192), None);
    assert_eq!(instance_capacity(Some(4096), 4097), Some(8192));
}

#[test]
fn rows_are_padded() {
    let page: Vec<u8> = (0..64).collect();
    let out = repack(&page, 8, RectPx::new(2, 1, 5, 3), 1);
    assert_eq!(out.len(), 512);
    assert_eq!(&out[..4], &[10, 11, 12, 0]);
    assert_eq!(&out[256..260], &[18, 19, 20, 0]);
    let wide = repack(&page, 16, RectPx::new(1, 2, 3, 3), 4);
    assert_eq!(wide.len(), 256);
    assert_eq!(&wide[..9], &[36, 37, 38, 39, 40, 41, 42, 43, 0]);
}

#[test]
fn full_rows_are_sent_as_they_lie() {
    let page: Vec<u8> = (0..64).collect();
    let u = upload_rect(&page, 8, false, 3, RectPx::new(0, 2, 8, 5)).unwrap();
    assert!(matches!(u.rows, Rows::Whole(16, 40)));
    assert_eq!((u.row_pitch, u.layer), (8, 3));
    assert_eq!(u.bytes(), 24);
    let v = upload_rect(&page, 8, false, 0, RectPx::new(0, 2, 7, 5)).unwrap();
    assert_eq!(v.row_pitch, 256);
    assert_eq!(v.bytes(), 768);
    match v.rows {
        Rows::Packed(bytes) => assert_eq!(&bytes[..8], &[16, 17, 18, 19, 20, 21, 22, 0]),
        Rows::Whole(..) => panic!("narrow rows are copied"),
    }
    assert!(upload_rect(&page, 8, false, 0, RectPx::new(3, 2, 3, 5)).is_none());
}

#[test]
fn a_sync_sends_what_changed() {
    let mut atlas = GlyphAtlas::for_test(64, 2, 1);
    let first = atlas.write_alpha(4, 4, &[9u8; 16]).unwrap();
    let plan = sync_atlas(&mut atlas, None);
    assert_eq!(plan.rebuild, Some(Caps { alpha: 1, color: 1 }));
    assert_eq!(plan.alpha.len(), 1);
    assert!(plan.color.is_empty());
    assert_eq!(plan.alpha[0].rect.min_x, first.x as u32);

    let caps = plan.rebuild;
    let idle = sync_atlas(&mut atlas, caps);
    assert!(idle.rebuild.is_none() && idle.alpha.is_empty() && idle.color.is_empty());

    let second = atlas.write_alpha(4, 4, &[8u8; 16]).unwrap();
    let more = sync_atlas(&mut atlas, caps);
    assert!(more.rebuild.is_none());
    assert_eq!(more.alpha.len(), 1);
    assert_eq!(
        more.alpha[0].rect,
        RectPx::new(
            second.x as u32,
            second.y as u32,
            second.x as u32 + 4,
            second.y as u32 + 4
        )
    );

    // A color page outgrows nothing; a second alpha page does, and then
    // everything that was ever written is sent again.
    assert!(atlas.write_color(4, 4, &[7u8; 64]).is_some());
    assert!(sync_atlas(&mut atlas, caps).rebuild.is_none());
    assert!(atlas.write_alpha(60, 60, &[6u8; 3600]).is_some());
    let again = sync_atlas(&mut atlas, caps);
    assert_eq!(again.rebuild, Some(Caps { alpha: 2, color: 1 }));
    assert_eq!(again.alpha.len(), 2);
    assert_eq!(again.color.len(), 1);
}

#[test]
fn rows_may_end_with_the_last_pixel() {
    let page: Vec<u8> = (0..20).collect();
    // Three bytes a pixel, and no bytes behind the last row.
    let out = repack(&page, 8, RectPx::new(1, 1, 4, 2), 3);
    assert_eq!(out.len(), 256);
    assert_eq!(&out[..10], &[11, 12, 13, 14, 15, 16, 17, 18, 19, 0]);
    // Rows that overlap, where the stride is short.
    let out = repack(&page, 4, RectPx::new(0, 0, 8, 3), 1);
    assert_eq!(out.len(), 768);
    assert_eq!(&out[512..521], &[8, 9, 10, 11, 12, 13, 14, 15, 0]);
    // No rows, nothing read.
    assert!(repack(&[], 8, RectPx::new(0, 5, 4, 5), 1).is_empty());
}
