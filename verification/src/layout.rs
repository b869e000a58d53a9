//! Line breaking: from characters and a wrap policy to positioned glyphs.
//!
//! The text is cut into words. Each word is placed glyph by glyph from the
//! caret; a word that runs over the width limit is taken back, the caret goes
//! to the start of the next line, and the word is placed there whole.
use vstd::prelude::*;
use crate::font::{bounds_at, lemma_find_kerning_range, Font, Glyph, GlyphId};
use crate::geometry::{Point, ScreenRect};

verus! {

/// Word wrapping
#[derive(Debug, Copy, Clone, PartialEq, Eq, Structural)]
pub enum WordWrap {
    /// Break a line on a word boundary before the given width is passed
    Normal(u32),
    /// Don't do any word wrapping
    NoWrap,
}

/// Where the next glyph goes, and the glyph before it.
#[derive(Debug, Copy, Clone, PartialEq, Eq, Structural)]
pub struct LayoutState {
    /// The pen position of the next glyph
    pub caret: Point,
    /// The glyph placed last, against which the next one is kerned
    pub previous_glyph_id: Option<GlyphId>,
}

/// A glyph with its place in the layout.
#[derive(Debug, Copy, Clone, PartialEq, Eq, Structural)]
pub struct PositionedGlyph {
    /// The glyph
    pub glyph_id: GlyphId,
    /// Where its pen stands
    pub pen_position: Point,
    /// The box that it covers, or `None` for a glyph that draws nothing
    pub bounding_box: Option<ScreenRect>,
}

/// The most characters that one layout takes.
pub const TEXT_LIMIT: usize = 0x1000_0000;

/// How far from the origin a caret may stand when a layout starts.
pub const ORIGIN_LIMIT: i64 = 0x1000_0000_0000_0000;

/// How far from the origin a caret may stand when one word is placed.
pub const CARET_LIMIT: i64 = 0x2000_0000_0000_0000;

/// The most that one character moves the caret sideways: a kerning and an
/// advance.
pub const STEP: i64 = 0x1_0000_0000;

/// The most that one character moves the caret down.
pub const LINE: i64 = 0x8000_0000;

/// What one pass over a run of characters has come to.
pub struct Pass {
    /// The caret and the previous glyph after the pass
    pub state: LayoutState,
    /// The glyphs placed so far
    pub glyphs: Seq<PositionedGlyph>,
    /// Whether every glyph so far stayed within the width limit
    pub fits: bool,
}

impl LayoutState {
    /// The caret is at most `limit` away from the origin, along each axis.
    pub open spec fn within(&self, limit: int) -> bool {
        &&& -limit <= self.caret.x <= limit
        &&& -limit <= self.caret.y <= limit
    }

    /// The state in which every layout begins: caret at the origin, no
    /// previous glyph.
    pub open spec fn origin() -> LayoutState {
        LayoutState { caret: Point { x: 0, y: 0 }, previous_glyph_id: None }
    }

    /// The state in which every layout begins.
    pub fn start() -> (s: LayoutState)
        ensures
            s == LayoutState::origin(),
    {
        LayoutState { caret: Point { x: 0, y: 0 }, previous_glyph_id: None }
    }
}

/// The caret at the start of the line below.
pub open spec fn next_line(font: Font, st: LayoutState) -> Point {
    Point { x: 0, y: (st.caret.y + font.line_advance()) as i64 }
}

/// The pen position of glyph `g` placed next: the caret, moved by the
/// kerning against the previous glyph.
pub open spec fn pen_for(font: Font, st: LayoutState, g: Glyph) -> Point {
    match st.previous_glyph_id {
        Some(prev) => Point { x: (st.caret.x + font.kerning_of(prev, g.id)) as i64, y: st.caret.y },
        None => st.caret,
    }
}

/// The glyph of `c` placed next.
pub open spec fn placed(font: Font, st: LayoutState, c: char) -> PositionedGlyph {
    let g = font.glyph_of(c);
    let pen = pen_for(font, st, g);
    PositionedGlyph { glyph_id: g.id, pen_position: pen, bounding_box: bounds_at(g, pen) }
}

/// The glyph's box reaches past the width limit.
pub open spec fn exceeds(g: PositionedGlyph, wrap: WordWrap) -> bool {
    match (wrap, g.bounding_box) {
        (WordWrap::Normal(width), Some(bb)) => bb.right() > width,
        _ => false,
    }
}

/// One character more. A carriage return changes nothing; a newline moves
/// the caret to the next line; any other character places its glyph and
/// advances, unless the glyph runs over the limit: then the pass is over,
/// the caret stands on the next line and the previous glyph is forgotten.
pub open spec fn step(font: Font, p: Pass, c: char, wrap: WordWrap) -> Pass {
    if !p.fits || c == '\r' {
        p
    } else if c == '\n' {
        Pass {
            state: LayoutState {
                caret: next_line(font, p.state),
                previous_glyph_id: p.state.previous_glyph_id,
            },
            glyphs: p.glyphs,
            fits: true,
        }
    } else {
        let g = placed(font, p.state, c);
        if exceeds(g, wrap) {
            Pass {
                state: LayoutState { caret: next_line(font, p.state), previous_glyph_id: None },
                glyphs: p.glyphs,
                fits: false,
            }
        } else {
            Pass {
                state: LayoutState {
                    caret: Point {
                        x: (g.pen_position.x + font.glyph_of(c).advance_width) as i64,
                        y: p.state.caret.y,
                    },
                    previous_glyph_id: Some(g.glyph_id),
                },
                glyphs: p.glyphs.push(g),
                fits: true,
            }
        }
    }
}

/// One pass over `text`, character by character, from the state `st`.
pub open spec fn run(font: Font, st: LayoutState, text: Seq<char>, wrap: WordWrap) -> Pass
    decreases text.len(),
{
    if text.len() == 0 {
        Pass { state: st, glyphs: Seq::empty(), fits: true }
    } else {
        step(font, run(font, st, text.drop_last(), wrap), text.last(), wrap)
    }
}

/// A pass that has run over the limit stays as it is, whatever follows.
pub proof fn lemma_run_aborted(font: Font, st: LayoutState, text: Seq<char>, wrap: WordWrap, i: int)
    requires
        0 <= i <= text.len(),
        !run(font, st, text.take(i), wrap).fits,
    ensures
        run(font, st, text, wrap) == run(font, st, text.take(i), wrap),
    decreases text.len(),
{
    if i == text.len() {
        assert(text.take(i) =~= text);
    } else {
        assert(text.drop_last().take(i) =~= text.take(i));
        lemma_run_aborted(font, st, text.drop_last(), wrap, i);
    }
}

/// The farthest from the origin that a caret is ever carried.
pub const REACH: i64 = 0x3000_0000_0000_0000;

/// How far a pass can carry the caret: each character moves it sideways by
/// at most `STEP` and down by at most `LINE`, and never up.
pub proof fn lemma_run_bounds(
    font: Font,
    st: LayoutState,
    text: Seq<char>,
    wrap: WordWrap,
    bx: int,
    by: int,
)
    requires
        font.wf(),
        -bx <= st.caret.x <= bx,
        -by <= st.caret.y <= by,
        bx + text.len() * STEP <= REACH,
        by + text.len() * LINE <= REACH,
    ensures
        -(bx + text.len() * STEP) <= run(font, st, text, wrap).state.caret.x <= bx + text.len()
            * STEP,
        st.caret.y <= run(font, st, text, wrap).state.caret.y <= st.caret.y + text.len() * LINE,
    decreases text.len(),
{
    font.lemma_line_advance_range();
    if text.len() > 0 {
        lemma_run_bounds(font, st, text.drop_last(), wrap, bx, by);
        let before = run(font, st, text.drop_last(), wrap).state;
        let g = font.glyph_of(text.last());
        if before.previous_glyph_id is Some {
            lemma_find_kerning_range(
                font.kerning_table(),
                before.previous_glyph_id->Some_0,
                g.id,
            );
        }
    }
}

/// The pen of the glyph, and its box if it has one, stand at most `reach_x`
/// from the origin sideways and `reach_y` up or down.
pub open spec fn glyph_within(g: PositionedGlyph, reach_x: int, reach_y: int) -> bool {
    &&& -reach_x <= g.pen_position.x <= reach_x
    &&& -reach_y <= g.pen_position.y <= reach_y
    &&& match g.bounding_box {
        Some(bb) => -reach_x <= bb.x <= reach_x && -reach_y <= bb.y <= reach_y,
        None => true,
    }
}

/// How far from the origin a pass places its glyphs: no farther than it can
/// carry the caret.
pub proof fn lemma_run_glyphs_within(
    font: Font,
    st: LayoutState,
    text: Seq<char>,
    wrap: WordWrap,
    bx: int,
    by: int,
)
    requires
        font.wf(),
        -bx <= st.caret.x <= bx,
        -by <= st.caret.y <= by,
        bx + text.len() * STEP <= REACH,
        by + text.len() * LINE <= REACH,
    ensures
        forall|i: int|
            0 <= i < run(font, st, text, wrap).glyphs.len() ==> glyph_within(
                #[trigger] run(font, st, text, wrap).glyphs[i],
                bx + text.len() * STEP,
                by + text.len() * LINE,
            ),
    decreases text.len(),
{
    font.lemma_line_advance_range();
    if text.len() > 0 {
        let init = text.drop_last();
        lemma_run_glyphs_within(font, st, init, wrap, bx, by);
        lemma_run_bounds(font, st, init, wrap, bx, by);
        let before = run(font, st, init, wrap);
        let g = font.glyph_of(text.last());
        if before.state.previous_glyph_id is Some {
            lemma_find_kerning_range(
                font.kerning_table(),
                before.state.previous_glyph_id->Some_0,
                g.id,
            );
        }
        let after = run(font, st, text, wrap);
        assert forall|i: int| 0 <= i < after.glyphs.len() implies glyph_within(
            #[trigger] after.glyphs[i],
            bx + text.len() * STEP,
            by + text.len() * LINE,
        ) by {
            if i < before.glyphs.len() {
                assert(after.glyphs[i] == before.glyphs[i]);
                assert(glyph_within(
                    before.glyphs[i],
                    bx + init.len() * STEP,
                    by + init.len() * LINE,
                ));
            }
        }
    }
}

/// Without a width limit every pass fits.
pub proof fn lemma_no_wrap_fits(font: Font, st: LayoutState, text: Seq<char>)
    ensures
        run(font, st, text, WordWrap::NoWrap).fits,
    decreases text.len(),
{
    if text.len() > 0 {
        lemma_no_wrap_fits(font, st, text.drop_last());
    }
}

/// A pass over `a` followed by `b` is the pass over `a`, and then, where it
/// fits, the pass over `b` from where the first one ended.
pub proof fn lemma_run_concat(
    font: Font,
    st: LayoutState,
    a: Seq<char>,
    b: Seq<char>,
    wrap: WordWrap,
)
    requires
        run(font, st, a, wrap).fits,
    ensures
        run(font, st, a + b, wrap).state == run(font, run(font, st, a, wrap).state, b, wrap).state,
        run(font, st, a + b, wrap).fits == run(font, run(font, st, a, wrap).state, b, wrap).fits,
        run(font, st, a + b, wrap).glyphs == run(font, st, a, wrap).glyphs + run(
            font,
            run(font, st, a, wrap).state,
            b,
            wrap,
        ).glyphs,
    decreases b.len(),
{
    let mid = run(font, st, a, wrap);
    if b.len() == 0 {
        assert(a + b =~= a);
        assert(mid.glyphs + Seq::<PositionedGlyph>::empty() =~= mid.glyphs);
    } else {
        assert((a + b).drop_last() =~= a + b.drop_last());
        assert((a + b).last() == b.last());
        lemma_run_concat(font, st, a, b.drop_last(), wrap);
        let rest = run(font, mid.state, b.drop_last(), wrap);
        let whole = run(font, st, a + b.drop_last(), wrap);
        assert(step(font, whole, b.last(), wrap).glyphs =~= mid.glyphs + step(
            font,
            rest,
            b.last(),
            wrap,
        ).glyphs);
    }
}

/// The glyphs that a text shows: one for each character that is no carriage
/// return, in order.
pub open spec fn shown(font: Font, text: Seq<char>) -> Seq<Glyph>
    decreases text.len(),
{
    if text.len() == 0 {
        Seq::empty()
    } else if text.last() == '\r' {
        shown(font, text.drop_last())
    } else {
        shown(font, text.drop_last()).push(font.glyph_of(text.last()))
    }
}

/// The advance widths of the glyphs, added up.
pub open spec fn sum_of_advances(glyphs: Seq<Glyph>) -> int
    decreases glyphs.len(),
{
    if glyphs.len() == 0 {
        0
    } else {
        sum_of_advances(glyphs.drop_last()) + glyphs.last().advance_width
    }
}

/// The kernings between each glyph and the one after it, added up.
pub open spec fn sum_of_kernings(font: Font, glyphs: Seq<Glyph>) -> int
    decreases glyphs.len(),
{
    if glyphs.len() < 2 {
        0
    } else {
        sum_of_kernings(font, glyphs.drop_last()) + font.kerning_of(
            glyphs[glyphs.len() - 2].id,
            glyphs[glyphs.len() - 1].id,
        )
    }
}

/// No character of the text is a newline.
pub open spec fn single_line(text: Seq<char>) -> bool {
    forall|i: int| 0 <= i < text.len() ==> text[i] != '\n'
}

/// A text without newlines, laid out from the origin without a width limit,
/// leaves the caret on the first line, at the sum of the advance widths of
/// its glyphs and of the kernings between neighbours.
pub proof fn lemma_caret_is_sum_of_advances(font: Font, text: Seq<char>)
    requires
        font.wf(),
        text.len() <= TEXT_LIMIT,
        single_line(text),
    ensures
        run(font, LayoutState::origin(), text, WordWrap::NoWrap).state.caret.x == sum_of_advances(
            shown(font, text),
        ) + sum_of_kernings(font, shown(font, text)),
        run(font, LayoutState::origin(), text, WordWrap::NoWrap).state.caret.y == 0,
        run(font, LayoutState::origin(), text, WordWrap::NoWrap).state.previous_glyph_id == (if shown(
            font,
            text,
        ).len() > 0 {
            Some(shown(font, text).last().id)
        } else {
            None
        }),
    decreases text.len(),
{
    if text.len() > 0 {
        let init = text.drop_last();
        assert(single_line(init)) by {
            assert forall|i: int| 0 <= i < init.len() implies init[i] != '\n' by {
                assert(init[i] == text[i]);
            }
        }
        lemma_caret_is_sum_of_advances(font, init);
        lemma_run_bounds(font, LayoutState::origin(), init, WordWrap::NoWrap, 0, 0);
        lemma_no_wrap_fits(font, LayoutState::origin(), init);
        let before = run(font, LayoutState::origin(), init, WordWrap::NoWrap);
        let c = text.last();
        assert(c != '\n');
        if c != '\r' {
            let g = font.glyph_of(c);
            let glyphs = shown(font, text);
            assert(glyphs.drop_last() =~= shown(font, init));
            assert(glyphs.last() == g);
            if before.state.previous_glyph_id is Some {
                lemma_find_kerning_range(
                    font.kerning_table(),
                    before.state.previous_glyph_id->Some_0,
                    g.id,
                );
                assert(glyphs[glyphs.len() - 2] == shown(font, init).last());
            }
        }
    }
}

/// Place the characters of `text` one after the other from the caret.
/// Returns the glyphs, or `None` as soon as one of them runs over the width
/// limit; the caret then stands at the start of the next line.
pub fn position_text(font: &Font, state: &mut LayoutState, text: &Vec<char>, wrap: WordWrap) -> (r:
    Option<Vec<PositionedGlyph>>)
    requires
        font.wf(),
        text@.len() <= TEXT_LIMIT,
        old(state).within(CARET_LIMIT as int),
    ensures
        *final(state) == run(*font, *old(state), text@, wrap).state,
        r is Some == run(*font, *old(state), text@, wrap).fits,
        r is Some ==> r->Some_0@ == run(*font, *old(state), text@, wrap).glyphs,
{
    let ghost st0 = *state;
    let mut glyphs: Vec<PositionedGlyph> = Vec::new();
    let line: i64 = font.advance_height() as i64;
    let mut i: usize = 0;
    while i < text.len()
        invariant
            i <= text@.len(),
            font.wf(),
            text@.len() <= TEXT_LIMIT,
            st0.within(CARET_LIMIT as int),
            st0 == *old(state),
            line == font.line_advance(),
            run(*font, st0, text@.take(i as int), wrap) == (Pass {
                state: *state,
                glyphs: glyphs@,
                fits: true,
            }),
        decreases text@.len() - i,
    {
        let c = text[i];
        proof {
            assert(text@.take(i + 1).drop_last() =~= text@.take(i as int));
            assert(text@.take(i + 1).last() == c);
            assert(run(*font, st0, text@.take(i + 1), wrap) == step(
                *font,
                run(*font, st0, text@.take(i as int), wrap),
                c,
                wrap,
            ));
            lemma_run_bounds(
                *font,
                st0,
                text@.take(i as int),
                wrap,
                CARET_LIMIT as int,
                CARET_LIMIT as int,
            );
            font.lemma_line_advance_range();
            if state.previous_glyph_id is Some {
                lemma_find_kerning_range(
                    font.kerning_table(),
                    state.previous_glyph_id->Some_0,
                    font.glyph_of(c).id,
                );
            }
        }
        if c == '\r' {
        } else if c == '\n' {
            state.caret = Point { x: 0, y: state.caret.y + line };
        } else {
            let g = font.glyph(c);
            let pen = match state.previous_glyph_id {
                Some(prev) => Point {
                    x: state.caret.x + font.kerning(prev, g.id) as i64,
                    y: state.caret.y,
                },
                None => state.caret,
            };
            let bounding_box = Font::bounding_box(&g, pen);
            let too_wide = match (wrap, bounding_box) {
                (WordWrap::Normal(width), Some(bb)) => bb.x + bb.width as i64 > width as i64,
                _ => false,
            };
            if too_wide {
                state.caret = Point { x: 0, y: state.caret.y + line };
                state.previous_glyph_id = None;
                proof {
                    lemma_run_aborted(*font, st0, text@, wrap, i + 1);
                }
                return None;
            }
            state.caret = Point { x: pen.x + g.advance_width as i64, y: state.caret.y };
            state.previous_glyph_id = Some(g.id);
            glyphs.push(PositionedGlyph { glyph_id: g.id, pen_position: pen, bounding_box });
        }
        i += 1;
    }
    proof {
        assert(text@.take(text@.len() as int) =~= text@);
    }
    Some(glyphs)
}

} // verus!
