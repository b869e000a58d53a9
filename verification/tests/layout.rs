use glyphflow::font::{Font, FontLoadError, Glyph, GlyphBounds, GlyphId, Kerning};
use glyphflow::geometry::{Point, ScreenRect};
use glyphflow::layout::{position_text, LayoutState, WordWrap};
use glyphflow::linebreak::{layout_normal_wrap, layout_text, layout_words, no_wrap};

fn glyph(ch: char, id: u16, advance: i32, visible: bool) -> Glyph {
    Glyph {
        ch,
        id: GlyphId(id),
        advance_width: advance,
        bounds: if visible {
            Some(GlyphBounds { left: 1, top: -10, width: 6, height: 10 })
        } else {
            None
        },
    }
}

fn mono_font() -> Font {
    let mut glyphs = Vec::new();
    let mut id = 1;
    for ch in "abcdefghijklmnopqrstuvwxyz".chars() {
        glyphs.push(glyph(ch, id, 8, true));
        id += 1;
    }
    glyphs.push(glyph(' ', 100, 8, false));
    let kerning = vec![Kerning { left: GlyphId(1), right: GlyphId(2), amount: -1 }];
    Font::new(12, glyph('?', 0, 8, true), glyphs, kerning).unwrap()
}

#[test]
fn font_without_glyphs_is_refused() {
    let r = Font::new(12, glyph('?', 0, 8, true), Vec::new(), Vec::new());
    assert!(matches!(r, Err(FontLoadError::NoGlyphs)));
}

#[test]
fn font_with_negative_line_advance_is_refused() {
    let r = Font::new(-1, glyph('?', 0, 8, true), vec![glyph('a', 1, 8, true)], Vec::new());
    assert!(matches!(r, Err(FontLoadError::NegativeLineAdvance)));
}

#[test]
fn font_lookups() {
    let font = mono_font();
    assert_eq!(font.advance_height(), 12);
    assert_eq!(font.glyph('b').id, GlyphId(2));
    assert_eq!(font.glyph('!').id, GlyphId(0));
    assert_eq!(font.advance_width('a'), 8);
    assert_eq!(font.kerning(GlyphId(1), GlyphId(2)), -1);
    assert_eq!(font.kerning(GlyphId(2), GlyphId(1)), 0);
    let bb = Font::bounding_box(&font.glyph('a'), Point { x: 10, y: 20 });
    assert_eq!(bb, Some(ScreenRect { x: 11, y: 10, width: 6, height: 10 }));
    assert_eq!(Font::bounding_box(&font.glyph(' '), Point { x: 10, y: 20 }), None);
}

#[test]
fn kerned_pair_without_wrap_ends_at_fifteen() {
    let font = mono_font();
    let mut state = LayoutState::start();
    let glyphs = no_wrap(&font, &mut state, "ab");
    assert_eq!(state.caret, Point { x: 15, y: 0 });
    assert_eq!(glyphs.len(), 2);
    assert_eq!(glyphs[0].pen_position, Point { x: 0, y: 0 });
    assert_eq!(glyphs[1].pen_position, Point { x: 7, y: 0 });
    assert_eq!(state.previous_glyph_id, Some(GlyphId(2)));
}

#[test]
fn caret_is_the_sum_of_advances_and_kernings() {
    let font = mono_font();
    let mut state = LayoutState::start();
    let glyphs = layout_text(&font, &mut state, "abab ab\rab", WordWrap::NoWrap);
    // nine glyphs of advance 8, and four pairs a-b of kerning -1
    assert_eq!(glyphs.len(), 9);
    assert_eq!(state.caret, Point { x: 9 * 8 - 4, y: 0 });
}

#[test]
fn hello_world_breaks_before_world() {
    let font = mono_font();
    // the whole phrase needs 11 * 8 - 1 = 87; "hello" needs 39
    let mut state = LayoutState::start();
    let glyphs = layout_normal_wrap(&font, &mut state, 80, "hello world");
    assert_eq!(glyphs.len(), 11);
    for g in &glyphs[0..5] {
        assert_eq!(g.pen_position.y, 0);
    }
    // the space stays on the first line and has no box
    assert_eq!(glyphs[5].glyph_id, GlyphId(100));
    assert_eq!(glyphs[5].bounding_box, None);
    assert_eq!(glyphs[5].pen_position, Point { x: 40, y: 0 });
    // "world" starts the second line at column 0
    assert_eq!(glyphs[6].pen_position, Point { x: 0, y: 12 });
    for g in &glyphs[6..11] {
        assert_eq!(g.pen_position.y, 12);
        let bb = g.bounding_box.unwrap();
        assert!(bb.x + bb.width as i64 <= 80);
    }
    assert_eq!(state.caret, Point { x: 40, y: 12 });
    let boxes = glyphs.iter().filter(|g| g.bounding_box.is_some()).count();
    assert_eq!(boxes, 10);
}

#[test]
fn no_glyph_passes_the_width() {
    let font = mono_font();
    let mut state = LayoutState::start();
    let glyphs = layout_normal_wrap(&font, &mut state, 50, "one two three four five six");
    for g in &glyphs {
        if let Some(bb) = g.bounding_box {
            assert!(bb.x + bb.width as i64 <= 50);
        }
    }
}

#[test]
fn word_wider_than_the_line_stands_unbroken_at_column_zero() {
    let font = mono_font();
    let mut state = LayoutState::start();
    let glyphs = layout_normal_wrap(&font, &mut state, 20, "a wideword");
    // "a", " ", then "wideword" on the next line, all of it
    assert_eq!(glyphs.len(), 10);
    assert_eq!(glyphs[2].pen_position, Point { x: 0, y: 12 });
    for g in &glyphs[2..] {
        assert_eq!(g.pen_position.y, 12);
    }
    let last = glyphs[9].bounding_box.unwrap();
    assert!(last.x + last.width as i64 > 20);
    assert_eq!(state.caret, Point { x: 64, y: 12 });
}

#[test]
fn newline_starts_a_line_and_carriage_return_is_skipped() {
    let font = mono_font();
    let mut state = LayoutState::start();
    let glyphs = layout_text(&font, &mut state, "cd\r\ncd\n", WordWrap::NoWrap);
    assert_eq!(glyphs.len(), 4);
    assert_eq!(glyphs[1].pen_position, Point { x: 8, y: 0 });
    assert_eq!(glyphs[2].pen_position, Point { x: 0, y: 12 });
    assert_eq!(state.caret, Point { x: 0, y: 24 });
}

#[test]
fn position_text_gives_up_at_the_first_glyph_that_runs_over() {
    let font = mono_font();
    let mut state = LayoutState { caret: Point { x: 30, y: 5 }, previous_glyph_id: Some(GlyphId(3)) };
    let text: Vec<char> = "cd".chars().collect();
    let r = position_text(&font, &mut state, &text, WordWrap::Normal(44));
    // c: box 31..37 fits; d: pen 38, box 39..45 runs over 44
    assert!(r.is_none());
    assert_eq!(state.caret, Point { x: 0, y: 17 });
    assert_eq!(state.previous_glyph_id, None);
}

#[test]
fn position_text_places_what_fits() {
    let font = mono_font();
    let mut state = LayoutState::start();
    let text: Vec<char> = "cd".chars().collect();
    let r = position_text(&font, &mut state, &text, WordWrap::Normal(15)).unwrap();
    assert_eq!(r.len(), 2);
    assert_eq!(r[1].bounding_box, Some(ScreenRect { x: 9, y: -10, width: 6, height: 10 }));
    assert_eq!(state.caret, Point { x: 16, y: 0 });
}

#[test]
fn layout_words_takes_the_words_as_given() {
    let font = mono_font();
    let words: Vec<Vec<char>> = vec!["ab".chars().collect(), "ab".chars().collect()];
    let mut state = LayoutState::start();
    let glyphs = layout_words(&font, &mut state, &words, WordWrap::Normal(20));
    // second "ab": a at pen 15 (kerning b-a is 0), box 16..22 runs over 20
    assert_eq!(glyphs.len(), 4);
    assert_eq!(glyphs[2].pen_position, Point { x: 0, y: 12 });
    assert_eq!(glyphs[3].pen_position, Point { x: 7, y: 12 });
}

#[test]
fn word_boundaries_come_from_the_segmenter() {
    // "can't" is one word for the segmenter: it moves to the next line whole
    let font = mono_font();
    let mut state = LayoutState::start();
    let glyphs = layout_normal_wrap(&font, &mut state, 50, "ab can't");
    let ys: Vec<i64> = glyphs.iter().map(|g| g.pen_position.y).collect();
    assert_eq!(ys, vec![0, 0, 0, 12, 12, 12, 12, 12]);
}
