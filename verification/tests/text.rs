use std::sync::Arc;

use glyphflow::atlas::AtlasOverflow;
use glyphflow::compose::{Extent, Fraction};
use glyphflow::font::{Font, Glyph, GlyphBounds, GlyphId, Kerning};
use glyphflow::geometry::Point;
use glyphflow::layout::WordWrap;
use glyphflow::text::Text;

fn glyph(ch: char, id: u16, advance: i32, width: u32, height: u32) -> Glyph {
    Glyph {
        ch,
        id: GlyphId(id),
        advance_width: advance,
        bounds: if width > 0 {
            Some(GlyphBounds { left: 1, top: -(height as i32), width, height })
        } else {
            None
        },
    }
}

fn font() -> Arc<Font> {
    let mut glyphs = Vec::new();
    let mut id = 1;
    for ch in "abcdefghijklmnopqrstuvwxyz".chars() {
        glyphs.push(glyph(ch, id, 8, 6, 10));
        id += 1;
    }
    glyphs.push(glyph(' ', 100, 8, 0, 0));
    glyphs.push(glyph('#', 200, 600, 600, 10));
    let kerning = vec![Kerning { left: GlyphId(1), right: GlyphId(2), amount: -1 }];
    Arc::new(Font::new(12, glyph('?', 0, 8, 6, 10), glyphs, kerning).unwrap())
}

fn draw(id: GlyphId, width: u32, height: u32) -> Vec<u8> {
    vec![id.0 as u8; (width * height) as usize]
}

#[test]
fn a_new_text_is_empty() {
    let text = Text::from_font(font(), WordWrap::NoWrap);
    assert_eq!(text.current_quads().len(), 0);
    assert_eq!(text.caret(), Point { x: 0, y: 0 });
    assert_eq!(text.texture().len(), 512 * 512);
    assert_eq!(text.font().advance_height(), 12);
}

#[test]
fn set_text_gives_a_quad_for_each_visible_glyph() {
    let mut text = Text::from_font(font(), WordWrap::NoWrap);
    text.set_text("ab a", draw).unwrap();
    let quads = text.current_quads();
    assert_eq!(quads.len(), 3);
    assert_eq!(text.caret(), Point { x: 31, y: 0 });
    // a at pen 0: box at 1, -10
    assert_eq!(quads[0].transform.translation, Point { x: 1, y: -10 });
    assert_eq!(quads[0].transform.scale, Extent { width: 6, height: 10 });
    assert_eq!(quads[0].uv_origin.u, Fraction { numerator: 0, denominator: 512 });
    assert_eq!(quads[0].uv_size.u, Fraction { numerator: 6, denominator: 512 });
    assert_eq!(quads[0].uv_size.v, Fraction { numerator: 10, denominator: 512 });
    // b at pen 7, second on the shelf
    assert_eq!(quads[1].transform.translation, Point { x: 8, y: -10 });
    assert_eq!(quads[1].uv_origin.u, Fraction { numerator: 6, denominator: 512 });
    // the second a is drawn at its own place from the slot of the first
    assert_eq!(quads[2].transform.translation, Point { x: 24, y: -10 });
    assert_eq!(quads[2].uv_origin, quads[0].uv_origin);
    // the bitmaps are in the atlas
    let texture = text.texture();
    assert_eq!(texture[0], 1);
    assert_eq!(texture[6], 2);
    assert_eq!(texture[12], 0);
    assert_eq!(texture[9 * 512 + 11], 2);
    assert_eq!(texture[10 * 512], 0);
}

#[test]
fn setting_the_same_text_twice_gives_the_same_quads() {
    let mut text = Text::from_font(font(), WordWrap::Normal(60));
    text.set_text("hello world and more", draw).unwrap();
    let first: Vec<_> = text.current_quads().to_vec();
    let texture: Vec<u8> = text.texture().to_vec();
    text.set_text("hello world and more", |_: GlyphId, _: u32, _: u32| panic!("nothing is new"))
        .unwrap();
    assert_eq!(text.current_quads(), first.as_slice());
    assert_eq!(text.texture(), texture.as_slice());
}

#[test]
fn position_moves_every_quad_and_nothing_else() {
    let mut text = Text::from_font(font(), WordWrap::NoWrap);
    text.set_text("ab", draw).unwrap();
    let before: Vec<_> = text.current_quads().to_vec();
    text.position(Point { x: 100, y: -20 });
    let after = text.current_quads();
    assert_eq!(after.len(), 2);
    for (a, b) in after.iter().zip(before.iter()) {
        assert_eq!(a.transform.translation, Point { x: b.transform.translation.x + 100, y: b.transform.translation.y - 20 });
        assert_eq!(a.transform.scale, b.transform.scale);
        assert_eq!(a.uv_origin, b.uv_origin);
        assert_eq!(a.uv_size, b.uv_size);
    }
    // a position replaces the one before it
    text.position(Point { x: 1, y: 1 });
    assert_eq!(text.current_quads()[0].transform.translation, Point { x: 2, y: -9 });
    // and the next text is laid out at it
    text.set_text("b", draw).unwrap();
    assert_eq!(text.current_quads()[0].transform.translation, Point { x: 2, y: -9 });
}

#[test]
fn reflow_lays_the_last_text_out_again() {
    let mut text = Text::from_font(font(), WordWrap::NoWrap);
    text.set_text("hello world", draw).unwrap();
    assert_eq!(text.caret(), Point { x: 88, y: 0 });
    text.reflow(WordWrap::Normal(80), draw).unwrap();
    assert_eq!(text.caret(), Point { x: 40, y: 12 });
    let quads = text.current_quads();
    assert_eq!(quads.len(), 10);
    assert_eq!(quads[4].transform.translation.y, -10);
    assert_eq!(quads[5].transform.translation, Point { x: 1, y: 2 });
}

#[test]
fn a_glyph_larger_than_the_atlas_fails_and_keeps_the_quads() {
    let mut text = Text::from_font(font(), WordWrap::NoWrap);
    text.set_text("ab", draw).unwrap();
    let before: Vec<_> = text.current_quads().to_vec();
    let r = text.set_text("a#", draw);
    assert_eq!(r, Err(AtlasOverflow { glyph_id: GlyphId(200), width: 600, height: 10 }));
    assert_eq!(text.current_quads(), before.as_slice());
    assert_eq!(text.caret(), Point { x: 15, y: 0 });
    // the text works on
    text.set_text("c", draw).unwrap();
    assert_eq!(text.current_quads().len(), 1);
}

#[test]
fn glyphs_without_room_are_left_out() {
    // 52 glyphs of 100 by 100: the atlas of 512 by 512 holds 25
    let mut glyphs = Vec::new();
    let mut id = 1;
    let letters = "abcdefghijklmnopqrstuvwxyzABCDEFGHIJKLMNOPQRSTUVWXYZ";
    for ch in letters.chars() {
        glyphs.push(glyph(ch, id, 8, 100, 100));
        id += 1;
    }
    let font = Arc::new(Font::new(120, glyph('?', 0, 8, 6, 10), glyphs, Vec::new()).unwrap());
    let mut text = Text::from_font(font, WordWrap::NoWrap);
    text.set_text(letters, |_: GlyphId, w: u32, h: u32| vec![255; (w * h) as usize]).unwrap();
    assert_eq!(text.current_quads().len(), 25);
    assert_eq!(text.caret(), Point { x: 52 * 8, y: 0 });
}
