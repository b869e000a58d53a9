use glyphflow::atlas::{AtlasOverflow, GlyphAtlasCache};
use glyphflow::compose::{compose, texels, Extent, Fraction};
use glyphflow::font::GlyphId;
use glyphflow::geometry::{AtlasRect, Point, ScreenRect};
use glyphflow::packing::AtlasSlot;

fn rect(width: u32, height: u32) -> ScreenRect {
    ScreenRect { x: 0, y: 0, width, height }
}

fn overlap(a: AtlasRect, b: AtlasRect) -> bool {
    a.x < b.x + b.width && b.x < a.x + a.width && a.y < b.y + b.height && b.y < a.y + a.height
}

#[test]
fn first_glyph_goes_to_the_top_left() {
    let mut cache = GlyphAtlasCache::new(64, 64);
    cache.queue(GlyphId(7), ScreenRect { x: 0, y: 0, width: 10, height: 12 });
    let made = cache.pack_queued().unwrap();
    assert_eq!(made.len(), 1);
    let slot = cache.resolve(GlyphId(7)).unwrap();
    assert_eq!(slot.atlas_rect, AtlasRect { x: 0, y: 0, width: 10, height: 12 });
    assert_eq!(slot.screen_rect, ScreenRect { x: 0, y: 0, width: 10, height: 12 });
    let quad = compose(slot, cache.dimensions());
    assert_eq!(quad.uv_origin.u, Fraction { numerator: 0, denominator: 64 });
    assert_eq!(quad.uv_origin.v, Fraction { numerator: 0, denominator: 64 });
    assert_eq!(quad.uv_size.u.numerator as f32 / quad.uv_size.u.denominator as f32, 0.15625);
    assert_eq!(quad.uv_size.v.numerator as f32 / quad.uv_size.v.denominator as f32, 0.1875);
    assert_eq!(quad.transform.translation, Point { x: 0, y: 0 });
    assert_eq!(quad.transform.scale, Extent { width: 10, height: 12 });
}

#[test]
fn compose_and_back_gives_the_atlas_rect() {
    let slot = AtlasSlot {
        glyph_id: GlyphId(3),
        atlas_rect: AtlasRect { x: 17, y: 40, width: 9, height: 13 },
        screen_rect: ScreenRect { x: -5, y: 30, width: 9, height: 13 },
    };
    let quad = compose(slot, (512, 256));
    assert_eq!(quad.transform.translation, Point { x: -5, y: 30 });
    assert_eq!(quad.uv_origin.v, Fraction { numerator: 40, denominator: 256 });
    assert_eq!(texels(&quad, (512, 256)), Some(slot.atlas_rect));
    assert!(quad.uv_origin.u.numerator + quad.uv_size.u.numerator <= 512);
}

#[test]
fn texels_of_a_zero_denominator_is_none() {
    let slot = AtlasSlot {
        glyph_id: GlyphId(3),
        atlas_rect: AtlasRect { x: 1, y: 2, width: 3, height: 4 },
        screen_rect: rect(3, 4),
    };
    let quad = compose(slot, (0, 16));
    assert_eq!(texels(&quad, (0, 16)), None);
}

#[test]
fn glyphs_fill_a_shelf_from_the_left_then_open_the_next() {
    let mut cache = GlyphAtlasCache::new(30, 64);
    cache.queue(GlyphId(1), rect(10, 12));
    cache.queue(GlyphId(2), rect(10, 8));
    cache.queue(GlyphId(3), rect(10, 12));
    cache.queue(GlyphId(4), rect(10, 5));
    cache.queue(GlyphId(5), rect(5, 14));
    let made = cache.pack_queued().unwrap();
    assert_eq!(made.len(), 5);
    assert_eq!(cache.resolve(GlyphId(1)).unwrap().atlas_rect, AtlasRect { x: 0, y: 0, width: 10, height: 12 });
    assert_eq!(cache.resolve(GlyphId(2)).unwrap().atlas_rect, AtlasRect { x: 10, y: 0, width: 10, height: 8 });
    assert_eq!(cache.resolve(GlyphId(3)).unwrap().atlas_rect, AtlasRect { x: 20, y: 0, width: 10, height: 12 });
    // the first shelf is full: the next glyph opens a shelf of its own height below
    assert_eq!(cache.resolve(GlyphId(4)).unwrap().atlas_rect, AtlasRect { x: 0, y: 12, width: 10, height: 5 });
    // too high for both shelves: a third shelf
    assert_eq!(cache.resolve(GlyphId(5)).unwrap().atlas_rect, AtlasRect { x: 0, y: 17, width: 5, height: 14 });
    assert_eq!(made[3].atlas_rect, AtlasRect { x: 0, y: 12, width: 10, height: 5 });
}

#[test]
fn queueing_twice_is_queueing_once() {
    let mut cache = GlyphAtlasCache::new(64, 64);
    cache.queue(GlyphId(1), rect(10, 12));
    cache.queue(GlyphId(1), ScreenRect { x: 50, y: 50, width: 10, height: 12 });
    let made = cache.pack_queued().unwrap();
    assert_eq!(made.len(), 1);
    assert_eq!(made[0].screen_rect, rect(10, 12));
}

#[test]
fn empty_bitmaps_are_not_queued() {
    let mut cache = GlyphAtlasCache::new(64, 64);
    cache.queue(GlyphId(1), rect(0, 12));
    cache.queue(GlyphId(2), rect(12, 0));
    let made = cache.pack_queued().unwrap();
    assert_eq!(made.len(), 0);
    assert_eq!(cache.resolve(GlyphId(1)), None);
}

#[test]
fn a_glyph_larger_than_the_atlas_overflows_and_changes_nothing() {
    let mut cache = GlyphAtlasCache::new(64, 64);
    cache.queue(GlyphId(1), rect(10, 12));
    cache.pack_queued().unwrap();
    cache.queue(GlyphId(2), rect(10, 10));
    cache.queue(GlyphId(3), rect(65, 10));
    cache.queue(GlyphId(4), rect(10, 100));
    let r = cache.pack_queued();
    assert_eq!(r, Err(AtlasOverflow { glyph_id: GlyphId(3), width: 65, height: 10 }));
    assert_eq!(cache.resolve(GlyphId(2)), None);
    assert!(cache.resolve(GlyphId(1)).is_some());
    // the queue is kept: once cleared, the next pass goes through
    cache.clear_queue();
    cache.queue(GlyphId(2), rect(10, 10));
    assert_eq!(cache.pack_queued().unwrap().len(), 1);
}

#[test]
fn a_glyph_as_large_as_the_atlas_fits() {
    let mut cache = GlyphAtlasCache::new(16, 16);
    cache.queue(GlyphId(1), rect(16, 16));
    assert_eq!(cache.pack_queued().unwrap().len(), 1);
    assert_eq!(cache.resolve(GlyphId(1)).unwrap().atlas_rect, AtlasRect { x: 0, y: 0, width: 16, height: 16 });
}

#[test]
fn the_least_recently_used_glyph_makes_way() {
    // room for two glyphs of 10 by 10 side by side, one shelf
    let mut cache = GlyphAtlasCache::new(20, 10);
    cache.queue(GlyphId(1), rect(10, 10));
    cache.queue(GlyphId(2), rect(10, 10));
    cache.pack_queued().unwrap();
    // pass two uses glyph 1 again
    cache.queue(GlyphId(1), rect(10, 10));
    cache.pack_queued().unwrap();
    // pass three needs glyph 3: glyph 2 is the least recently used
    cache.queue(GlyphId(3), rect(10, 10));
    let made = cache.pack_queued().unwrap();
    assert_eq!(cache.resolve(GlyphId(2)), None);
    // the shelf is not empty yet, so glyph 1 goes too; then the atlas is empty again
    assert_eq!(cache.resolve(GlyphId(1)), None);
    assert_eq!(made.len(), 1);
    assert_eq!(cache.resolve(GlyphId(3)).unwrap().atlas_rect, AtlasRect { x: 0, y: 0, width: 10, height: 10 });
}

#[test]
fn glyphs_of_the_current_pass_are_not_evicted() {
    let mut cache = GlyphAtlasCache::new(20, 10);
    cache.queue(GlyphId(1), rect(10, 10));
    cache.queue(GlyphId(2), rect(10, 10));
    cache.pack_queued().unwrap();
    // glyph 3 is queued first, but glyphs 1 and 2 are used in this pass too
    cache.queue(GlyphId(3), rect(10, 10));
    cache.queue(GlyphId(1), rect(10, 10));
    cache.queue(GlyphId(2), rect(10, 10));
    let made = cache.pack_queued().unwrap();
    assert_eq!(made.len(), 0);
    assert!(cache.resolve(GlyphId(1)).is_some());
    assert!(cache.resolve(GlyphId(2)).is_some());
    assert_eq!(cache.resolve(GlyphId(3)), None);
}

#[test]
fn more_glyphs_than_the_atlas_holds_is_no_error() {
    let mut cache = GlyphAtlasCache::new(32, 32);
    for id in 0..40u16 {
        cache.queue(GlyphId(id), rect(8, 8));
    }
    let made = cache.pack_queued().unwrap();
    // sixteen fit; the others stay out
    assert_eq!(made.len(), 16);
    let mut held = 0;
    for id in 0..40u16 {
        if cache.resolve(GlyphId(id)).is_some() {
            held += 1;
        }
    }
    assert_eq!(held, 16);
    assert_eq!(cache.resolve(GlyphId(16)), None);
}

#[test]
fn slots_never_overlap_under_churn() {
    let mut cache = GlyphAtlasCache::new(40, 40);
    let mut seed: u32 = 12345;
    for pass in 0..60u16 {
        for k in 0..5u16 {
            seed = seed.wrapping_mul(1103515245).wrapping_add(12345);
            let id = ((seed >> 16) % 30) as u16;
            let w = 3 + (id % 7) as u32;
            let h = 4 + (id % 5) as u32;
            cache.queue(GlyphId(id), rect(w, h));
            let _ = (pass, k);
        }
        cache.pack_queued().unwrap();
        let mut slots = Vec::new();
        for id in 0..30u16 {
            if let Some(slot) = cache.resolve(GlyphId(id)) {
                assert_eq!(slot.glyph_id, GlyphId(id));
                assert!(slot.atlas_rect.x + slot.atlas_rect.width <= 40);
                assert!(slot.atlas_rect.y + slot.atlas_rect.height <= 40);
                slots.push(slot.atlas_rect);
            }
        }
        for a in 0..slots.len() {
            for b in a + 1..slots.len() {
                assert!(!overlap(slots[a], slots[b]));
            }
        }
    }
}

#[test]
fn flush_draws_each_new_glyph_once_into_its_slot() {
    let mut cache = GlyphAtlasCache::new(8, 4);
    cache.queue(GlyphId(1), rect(2, 2));
    cache.queue(GlyphId(2), rect(3, 1));
    let calls = std::cell::RefCell::new(Vec::new());
    cache
        .flush(|id: GlyphId, w: u32, h: u32| {
            calls.borrow_mut().push((id, w, h));
            vec![id.0 as u8 * 10; (w * h) as usize]
        })
        .unwrap();
    assert_eq!(*calls.borrow(), vec![(GlyphId(1), 2, 2), (GlyphId(2), 3, 1)]);
    let expected: Vec<u8> = vec![
        10, 10, 20, 20, 20, 0, 0, 0,
        10, 10,  0,  0,  0, 0, 0, 0,
         0,  0,  0,  0,  0, 0, 0, 0,
         0,  0,  0,  0,  0, 0, 0, 0,
    ];
    assert_eq!(cache.read_full_buffer(), expected.as_slice());
    // a second pass over the same glyphs draws nothing
    cache.queue(GlyphId(1), rect(2, 2));
    cache.flush(|_: GlyphId, _: u32, _: u32| panic!("nothing is new")).unwrap();
    assert_eq!(cache.read_full_buffer(), expected.as_slice());
}

#[test]
fn flush_overflow_leaves_the_atlas_alone() {
    let mut cache = GlyphAtlasCache::new(8, 4);
    cache.queue(GlyphId(1), rect(9, 1));
    let r = cache.flush(|_: GlyphId, w: u32, h: u32| vec![1; (w * h) as usize]);
    assert_eq!(r, Err(AtlasOverflow { glyph_id: GlyphId(1), width: 9, height: 1 }));
    assert!(cache.read_full_buffer().iter().all(|b| *b == 0));
}

#[test]
fn write_region_writes_rows_and_stops_where_the_bytes_end() {
    let mut cache = GlyphAtlasCache::new(4, 3);
    cache.write_region((1, 1), (2, 2), &[1, 2, 3]);
    let expected: Vec<u8> = vec![
        0, 0, 0, 0,
        0, 1, 2, 0,
        0, 3, 0, 0,
    ];
    assert_eq!(cache.read_full_buffer(), expected.as_slice());
}

#[test]
fn touching_a_glyph_takes_the_new_screen_rect() {
    let mut cache = GlyphAtlasCache::new(64, 64);
    cache.queue(GlyphId(1), rect(10, 12));
    cache.pack_queued().unwrap();
    cache.queue(GlyphId(1), ScreenRect { x: 30, y: 40, width: 10, height: 12 });
    cache.pack_queued().unwrap();
    let slot = cache.resolve(GlyphId(1)).unwrap();
    assert_eq!(slot.screen_rect, ScreenRect { x: 30, y: 40, width: 10, height: 12 });
    assert_eq!(slot.atlas_rect, AtlasRect { x: 0, y: 0, width: 10, height: 12 });
}
