//! Greedy word wrap: a text is cut at word boundaries, and a word that does
//! not fit on the current line starts the next one.
use vstd::prelude::*;
use crate::font::Font;
use crate::layout::{
    exceeds, glyph_within, lemma_no_wrap_fits, lemma_run_bounds, lemma_run_concat,
    lemma_run_glyphs_within, position_text, run, single_line, LayoutState, Pass, PositionedGlyph,
    WordWrap, CARET_LIMIT, LINE, ORIGIN_LIMIT, REACH, STEP, TEXT_LIMIT,
};

verus! {

/// The pieces into which a text falls at its word boundaries, in order:
/// words, and each stretch of white space or punctuation between them.
pub uninterp spec fn word_bounds(text: Seq<char>) -> Seq<Seq<char>>;

/// The characters of each word.
pub open spec fn texts(words: Seq<Vec<char>>) -> Seq<Seq<char>> {
    Seq::new(words.len(), |i: int| words[i]@)
}

/// The words written one after the other.
pub open spec fn concat(words: Seq<Seq<char>>) -> Seq<char>
    decreases words.len(),
{
    if words.len() == 0 {
        Seq::empty()
    } else {
        concat(words.drop_last()) + words.last()
    }
}

/// How a word is placed: from the caret where it fits; else from the start
/// of the next line, whole, however wide it is.
pub open spec fn place_word(font: Font, st: LayoutState, word: Seq<char>, wrap: WordWrap) -> Pass {
    let first = run(font, st, word, wrap);
    if first.fits {
        first
    } else {
        run(font, first.state, word, WordWrap::NoWrap)
    }
}

/// The glyphs of a text and the state after them.
pub struct Layout {
    /// The caret and the previous glyph after the last word
    pub state: LayoutState,
    /// The glyphs, in the order of the characters
    pub glyphs: Seq<PositionedGlyph>,
}

/// The words placed one after the other from the state `st`.
pub open spec fn layout_of(font: Font, st: LayoutState, words: Seq<Seq<char>>, wrap: WordWrap) -> Layout
    decreases words.len(),
{
    if words.len() == 0 {
        Layout { state: st, glyphs: Seq::empty() }
    } else {
        let before = layout_of(font, st, words.drop_last(), wrap);
        let word = place_word(font, before.state, words.last(), wrap);
        Layout { state: word.state, glyphs: before.glyphs + word.glyphs }
    }
}

/// The first words of a text are no longer than the text.
pub proof fn lemma_concat_take(words: Seq<Seq<char>>, k: int)
    requires
        0 <= k <= words.len(),
    ensures
        concat(words.take(k)).len() <= concat(words).len(),
        k < words.len() ==> concat(words.take(k + 1)) == concat(words.take(k)) + words[k],
    decreases words.len(),
{
    if k < words.len() {
        assert(words.take(k + 1).drop_last() =~= words.take(k));
        if k + 1 < words.len() {
            assert(words.drop_last().take(k + 1) =~= words.take(k + 1));
            assert(words.drop_last().take(k) =~= words.take(k));
            lemma_concat_take(words.drop_last(), k);
        } else {
            assert(words.take(k + 1) =~= words);
        }
    } else {
        assert(words.take(k) =~= words);
    }
}

/// How far a word can carry the caret: no farther sideways than one pass over
/// it, down by at most two lines for each character, and never up.
pub proof fn lemma_place_word_bounds(
    font: Font,
    st: LayoutState,
    word: Seq<char>,
    wrap: WordWrap,
    n: int,
)
    requires
        font.wf(),
        0 <= n,
        st.within(n * STEP),
        n + word.len() <= 2 * TEXT_LIMIT,
    ensures
        place_word(font, st, word, wrap).state.within((n + word.len()) * STEP),
        run(font, st, word, wrap).state.within((n + word.len()) * STEP),
        place_word(font, st, word, wrap).fits,
        st.caret.y <= place_word(font, st, word, wrap).state.caret.y,
{
    lemma_run_bounds(font, st, word, wrap, n * STEP, n * STEP);
    let first = run(font, st, word, wrap);
    if !first.fits {
        lemma_aborted_at_line_start(font, st, word, wrap);
        lemma_run_bounds(font, first.state, word, WordWrap::NoWrap, 0, n * STEP + word.len() * LINE);
        lemma_no_wrap_fits(font, first.state, word);
    }
}

/// A pass that ran over the limit leaves the caret at the start of a line,
/// with no previous glyph.
pub proof fn lemma_aborted_at_line_start(
    font: Font,
    st: LayoutState,
    word: Seq<char>,
    wrap: WordWrap,
)
    requires
        !run(font, st, word, wrap).fits,
    ensures
        run(font, st, word, wrap).state.caret.x == 0,
        run(font, st, word, wrap).state.previous_glyph_id is None,
    decreases word.len(),
{
    if word.len() > 0 {
        if !run(font, st, word.drop_last(), wrap).fits {
            lemma_aborted_at_line_start(font, st, word.drop_last(), wrap);
        }
    }
}

/// How far a text can carry the caret; it never carries it up.
pub proof fn lemma_layout_bounds(
    font: Font,
    st: LayoutState,
    words: Seq<Seq<char>>,
    wrap: WordWrap,
    n: int,
)
    requires
        font.wf(),
        0 <= n,
        st.within(n * STEP),
        n + concat(words).len() <= 2 * TEXT_LIMIT,
    ensures
        layout_of(font, st, words, wrap).state.within((n + concat(words).len()) * STEP),
        st.caret.y <= layout_of(font, st, words, wrap).state.caret.y,
    decreases words.len(),
{
    if words.len() > 0 {
        lemma_layout_bounds(font, st, words.drop_last(), wrap, n);
        lemma_place_word_bounds(
            font,
            layout_of(font, st, words.drop_last(), wrap).state,
            words.last(),
            wrap,
            n + concat(words.drop_last()).len(),
        );
    }
}

/// How far from the origin a word's glyphs stand: no farther than the word
/// can carry the caret.
pub proof fn lemma_place_word_glyphs_within(
    font: Font,
    st: LayoutState,
    word: Seq<char>,
    wrap: WordWrap,
    n: int,
)
    requires
        font.wf(),
        0 <= n,
        st.within(n * STEP),
        n + word.len() <= 2 * TEXT_LIMIT,
    ensures
        forall|i: int|
            0 <= i < place_word(font, st, word, wrap).glyphs.len() ==> glyph_within(
                #[trigger] place_word(font, st, word, wrap).glyphs[i],
                (n + word.len()) * STEP,
                (n + word.len()) * STEP,
            ),
{
    lemma_run_bounds(font, st, word, wrap, n * STEP, n * STEP);
    lemma_run_glyphs_within(font, st, word, wrap, n * STEP, n * STEP);
    let first = run(font, st, word, wrap);
    if !first.fits {
        lemma_aborted_at_line_start(font, st, word, wrap);
        lemma_run_glyphs_within(
            font,
            first.state,
            word,
            WordWrap::NoWrap,
            0,
            n * STEP + word.len() * LINE,
        );
    }
}

/// How far from the origin the glyphs of a text stand.
pub proof fn lemma_layout_glyphs_within(
    font: Font,
    st: LayoutState,
    words: Seq<Seq<char>>,
    wrap: WordWrap,
    n: int,
)
    requires
        font.wf(),
        0 <= n,
        st.within(n * STEP),
        n + concat(words).len() <= 2 * TEXT_LIMIT,
    ensures
        forall|i: int|
            0 <= i < layout_of(font, st, words, wrap).glyphs.len() ==> glyph_within(
                #[trigger] layout_of(font, st, words, wrap).glyphs[i],
                (n + concat(words).len()) * STEP,
                (n + concat(words).len()) * STEP,
            ),
    decreases words.len(),
{
    if words.len() > 0 {
        let init = words.drop_last();
        lemma_layout_glyphs_within(font, st, init, wrap, n);
        lemma_layout_bounds(font, st, init, wrap, n);
        let before = layout_of(font, st, init, wrap);
        lemma_place_word_glyphs_within(
            font,
            before.state,
            words.last(),
            wrap,
            n + concat(init).len(),
        );
        let word = place_word(font, before.state, words.last(), wrap);
        let after = layout_of(font, st, words, wrap);
        assert forall|i: int| 0 <= i < after.glyphs.len() implies glyph_within(
            #[trigger] after.glyphs[i],
            (n + concat(words).len()) * STEP,
            (n + concat(words).len()) * STEP,
        ) by {
            if i < before.glyphs.len() {
                assert(after.glyphs[i] == before.glyphs[i]);
                assert(glyph_within(
                    before.glyphs[i],
                    (n + concat(init).len()) * STEP,
                    (n + concat(init).len()) * STEP,
                ));
            } else {
                assert(after.glyphs[i] == word.glyphs[i - before.glyphs.len()]);
            }
        }
    }
}

/// Without a width limit the word boundaries do not matter: the words are
/// placed as one pass over the whole text places them.
pub proof fn lemma_no_wrap_is_one_pass(font: Font, st: LayoutState, words: Seq<Seq<char>>)
    ensures
        layout_of(font, st, words, WordWrap::NoWrap).state == run(
            font,
            st,
            concat(words),
            WordWrap::NoWrap,
        ).state,
        layout_of(font, st, words, WordWrap::NoWrap).glyphs == run(
            font,
            st,
            concat(words),
            WordWrap::NoWrap,
        ).glyphs,
    decreases words.len(),
{
    if words.len() > 0 {
        lemma_no_wrap_is_one_pass(font, st, words.drop_last());
        lemma_no_wrap_fits(font, st, concat(words.drop_last()));
        lemma_run_concat(font, st, concat(words.drop_last()), words.last(), WordWrap::NoWrap);
        lemma_no_wrap_fits(
            font,
            layout_of(font, st, words.drop_last(), WordWrap::NoWrap).state,
            words.last(),
        );
    }
}

/// No glyph's box reaches past `width`.
pub open spec fn all_within(glyphs: Seq<PositionedGlyph>, width: u32) -> bool {
    forall|i: int|
        0 <= i < glyphs.len() ==> !exceeds(#[trigger] glyphs[i], WordWrap::Normal(width))
}

/// A pass that fits under a width limit keeps every glyph within it, and is
/// the pass that no limit would have given.
pub proof fn lemma_fitting_pass(font: Font, st: LayoutState, text: Seq<char>, width: u32)
    requires
        run(font, st, text, WordWrap::Normal(width)).fits,
    ensures
        all_within(run(font, st, text, WordWrap::Normal(width)).glyphs, width),
        run(font, st, text, WordWrap::NoWrap) == run(font, st, text, WordWrap::Normal(width)),
    decreases text.len(),
{
    if text.len() > 0 {
        lemma_fitting_pass(font, st, text.drop_last(), width);
    }
}

/// The word does not fit on a line of `width` even when it starts the line:
/// the pass from `line_start` runs over the limit.
pub open spec fn wider_than_line(
    font: Font,
    line_start: LayoutState,
    word: Seq<char>,
    width: u32,
) -> bool {
    &&& line_start.caret.x == 0
    &&& line_start.previous_glyph_id is None
    &&& !run(font, line_start, word, WordWrap::Normal(width)).fits
}

/// Under a width limit every glyph of a word stays within the width, unless
/// the word ran over the limit from the caret and is wider than a whole
/// line: then it was taken to the start of the next line and stands there
/// unbroken.
pub proof fn lemma_word_within_or_wider(font: Font, st: LayoutState, word: Seq<char>, width: u32)
    ensures
        all_within(place_word(font, st, word, WordWrap::Normal(width)).glyphs, width) || (!run(
            font,
            st,
            word,
            WordWrap::Normal(width),
        ).fits && wider_than_line(
            font,
            run(font, st, word, WordWrap::Normal(width)).state,
            word,
            width,
        )),
{
    let first = run(font, st, word, WordWrap::Normal(width));
    if first.fits {
        lemma_fitting_pass(font, st, word, width);
    } else {
        lemma_aborted_at_line_start(font, st, word, WordWrap::Normal(width));
        if run(font, first.state, word, WordWrap::Normal(width)).fits {
            lemma_fitting_pass(font, first.state, word, width);
        }
    }
}

/// Under a width limit, each word of a text keeps its glyphs within the
/// width or is wider than a whole line.
pub proof fn lemma_layout_within_or_wider(
    font: Font,
    st: LayoutState,
    words: Seq<Seq<char>>,
    width: u32,
    k: int,
)
    requires
        0 <= k < words.len(),
    ensures
        ({
            let before = layout_of(font, st, words.take(k), WordWrap::Normal(width)).state;
            let after = layout_of(font, st, words.take(k + 1), WordWrap::Normal(width));
            let word = place_word(font, before, words[k], WordWrap::Normal(width));
            &&& after.glyphs == layout_of(font, st, words.take(k), WordWrap::Normal(width)).glyphs
                + word.glyphs
            &&& after.state == word.state
            &&& all_within(word.glyphs, width) || (!run(
                font,
                before,
                words[k],
                WordWrap::Normal(width),
            ).fits && wider_than_line(
                font,
                run(font, before, words[k], WordWrap::Normal(width)).state,
                words[k],
                width,
            ))
        }),
{
    assert(words.take(k + 1).drop_last() =~= words.take(k));
    assert(words.take(k + 1).last() == words[k]);
    let before = layout_of(font, st, words.take(k), WordWrap::Normal(width)).state;
    lemma_word_within_or_wider(font, before, words[k], width);
}

/// A pass over characters without a newline stays on the line where it
/// began: every glyph has the pen at that height, and so has the caret
/// wherever the pass fits.
pub proof fn lemma_pass_on_one_line(font: Font, st: LayoutState, text: Seq<char>, wrap: WordWrap)
    requires
        single_line(text),
    ensures
        forall|i: int|
            0 <= i < run(font, st, text, wrap).glyphs.len() ==> (#[trigger] run(
                font,
                st,
                text,
                wrap,
            ).glyphs[i]).pen_position.y == st.caret.y,
        run(font, st, text, wrap).fits ==> run(font, st, text, wrap).state.caret.y == st.caret.y,
    decreases text.len(),
{
    if text.len() > 0 {
        let init = text.drop_last();
        assert(single_line(init)) by {
            assert forall|i: int| 0 <= i < init.len() implies init[i] != '\n' by {
                assert(init[i] == text[i]);
            }
        }
        assert(text.last() != '\n');
        lemma_pass_on_one_line(font, st, init, wrap);
    }
}

/// A word without a newline is never split: all its glyphs stand on one
/// line, whether the word stayed where the caret was or went to the next
/// line.
pub proof fn lemma_word_on_one_line(font: Font, st: LayoutState, word: Seq<char>, wrap: WordWrap)
    requires
        single_line(word),
    ensures
        forall|i: int, j: int|
            0 <= i < place_word(font, st, word, wrap).glyphs.len() && 0 <= j < place_word(
                font,
                st,
                word,
                wrap,
            ).glyphs.len() ==> place_word(font, st, word, wrap).glyphs[i].pen_position.y
                == place_word(font, st, word, wrap).glyphs[j].pen_position.y,
{
    let first = run(font, st, word, wrap);
    lemma_pass_on_one_line(font, st, word, wrap);
    if !first.fits {
        lemma_pass_on_one_line(font, first.state, word, WordWrap::NoWrap);
    }
}

/// The number of newlines in the text.
pub open spec fn newlines(text: Seq<char>) -> nat
    decreases text.len(),
{
    if text.len() == 0 {
        0
    } else if text.last() == '\n' {
        newlines(text.drop_last()) + 1
    } else {
        newlines(text.drop_last())
    }
}

/// A pass that fits moves the caret down once for each newline, by the line
/// advance, and not otherwise.
pub proof fn lemma_fitting_pass_lines(font: Font, st: LayoutState, text: Seq<char>, wrap: WordWrap)
    requires
        font.wf(),
        st.within(CARET_LIMIT as int),
        text.len() <= TEXT_LIMIT,
        run(font, st, text, wrap).fits,
    ensures
        run(font, st, text, wrap).state.caret.y == st.caret.y + newlines(text)
            * font.line_advance(),
    decreases text.len(),
{
    font.lemma_line_advance_range();
    let la = font.line_advance();
    if text.len() > 0 {
        let init = text.drop_last();
        assert(run(font, st, init, wrap).fits);
        lemma_fitting_pass_lines(font, st, init, wrap);
        lemma_run_bounds(font, st, init, wrap, CARET_LIMIT as int, CARET_LIMIT as int);
        let n = newlines(init) as int;
        assert((n + 1) * la == n * la + la) by (nonlinear_arith);
        if text.last() == '\n' {
            assert(newlines(text) as int == n + 1);
        } else {
            assert(newlines(text) as int == n);
        }
    } else {
        assert(newlines(text) == 0);
        assert(0 * la == 0) by (nonlinear_arith);
    }
}

/// A pass over a word without a newline leaves the caret on its line where
/// the word fits, and exactly one line lower where it does not.
pub proof fn lemma_single_line_pass(font: Font, st: LayoutState, text: Seq<char>, wrap: WordWrap)
    requires
        font.wf(),
        st.within(REACH as int),
        single_line(text),
    ensures
        run(font, st, text, wrap).state.caret.y == (if run(font, st, text, wrap).fits {
            st.caret.y as int
        } else {
            st.caret.y + font.line_advance()
        }),
    decreases text.len(),
{
    font.lemma_line_advance_range();
    if text.len() > 0 {
        let init = text.drop_last();
        assert(single_line(init)) by {
            assert forall|i: int| 0 <= i < init.len() implies init[i] != '\n' by {
                assert(init[i] == text[i]);
            }
        }
        assert(text.last() != '\n');
        lemma_single_line_pass(font, st, init, wrap);
    }
}

/// The caret moves down exactly once for a forced wrap: a word without a
/// newline leaves the caret on its line where it fits there, and one line
/// advance lower where it had to go to the next line.
pub proof fn lemma_word_line_step(font: Font, st: LayoutState, word: Seq<char>, wrap: WordWrap)
    requires
        font.wf(),
        st.within(CARET_LIMIT as int),
        single_line(word),
    ensures
        place_word(font, st, word, wrap).state.caret.y == (if run(font, st, word, wrap).fits {
            st.caret.y as int
        } else {
            st.caret.y + font.line_advance()
        }),
{
    font.lemma_line_advance_range();
    lemma_single_line_pass(font, st, word, wrap);
    let first = run(font, st, word, wrap);
    if !first.fits {
        lemma_aborted_at_line_start(font, st, word, wrap);
        lemma_no_wrap_fits(font, first.state, word);
        lemma_single_line_pass(font, first.state, word, WordWrap::NoWrap);
    }
}

/// The number of words that did not fit where the caret stood and went to
/// the next line.
pub open spec fn wraps(font: Font, st: LayoutState, words: Seq<Seq<char>>, wrap: WordWrap) -> nat
    decreases words.len(),
{
    if words.len() == 0 {
        0
    } else if run(
        font,
        layout_of(font, st, words.drop_last(), wrap).state,
        words.last(),
        wrap,
    ).fits {
        wraps(font, st, words.drop_last(), wrap)
    } else {
        wraps(font, st, words.drop_last(), wrap) + 1
    }
}

/// Each word is free of newlines, or fits where the caret stands: no word
/// that has to go to the next line holds a newline of its own.
pub open spec fn tidy(font: Font, st: LayoutState, words: Seq<Seq<char>>, wrap: WordWrap) -> bool {
    forall|k: int|
        0 <= k < words.len() ==> single_line(#[trigger] words[k]) || run(
            font,
            layout_of(font, st, words.take(k), wrap).state,
            words[k],
            wrap,
        ).fits
}

/// The newlines of two texts written one after the other are those of both.
pub proof fn lemma_newlines_concat(a: Seq<char>, b: Seq<char>)
    ensures
        newlines(a + b) == newlines(a) + newlines(b),
    decreases b.len(),
{
    if b.len() == 0 {
        assert(a + b =~= a);
    } else {
        assert((a + b).drop_last() =~= a + b.drop_last());
        lemma_newlines_concat(a, b.drop_last());
    }
}

/// A text without a newline counts none.
pub proof fn lemma_single_line_newlines(text: Seq<char>)
    requires
        single_line(text),
    ensures
        newlines(text) == 0,
    decreases text.len(),
{
    if text.len() > 0 {
        let init = text.drop_last();
        assert(single_line(init)) by {
            assert forall|i: int| 0 <= i < init.len() implies init[i] != '\n' by {
                assert(init[i] == text[i]);
            }
        }
        assert(text.last() != '\n');
        lemma_single_line_newlines(init);
    }
}

/// The caret moves down exactly once for each newline and once for each
/// forced wrap, by the line advance each time, and not otherwise.
pub proof fn lemma_layout_lines(font: Font, st: LayoutState, words: Seq<Seq<char>>, wrap: WordWrap)
    requires
        font.wf(),
        st.within(ORIGIN_LIMIT as int),
        concat(words).len() <= TEXT_LIMIT,
        tidy(font, st, words, wrap),
    ensures
        layout_of(font, st, words, wrap).state.caret.y == st.caret.y + (newlines(concat(words))
            + wraps(font, st, words, wrap)) * font.line_advance(),
    decreases words.len(),
{
    let la = font.line_advance();
    if words.len() == 0 {
        assert(0 * la == 0) by (nonlinear_arith);
    } else {
        let init = words.drop_last();
        let word = words.last();
        assert(tidy(font, st, init, wrap)) by {
            assert forall|k: int| 0 <= k < init.len() implies single_line(#[trigger] init[k])
                || run(font, layout_of(font, st, init.take(k), wrap).state, init[k], wrap).fits by {
                assert(init[k] == words[k]);
                assert(init.take(k) =~= words.take(k));
            }
        }
        lemma_layout_lines(font, st, init, wrap);
        lemma_layout_bounds(font, st, init, wrap, TEXT_LIMIT as int);
        lemma_newlines_concat(concat(init), word);
        let before = layout_of(font, st, init, wrap).state;
        assert(words.take(words.len() - 1) =~= init);
        assert(single_line(words[words.len() - 1]) || run(font, before, word, wrap).fits);
        let n = (newlines(concat(init)) + wraps(font, st, init, wrap)) as int;
        let m = newlines(word) as int;
        if run(font, before, word, wrap).fits {
            lemma_fitting_pass_lines(font, before, word, wrap);
            assert((n + m) * la == n * la + m * la) by (nonlinear_arith);
        } else {
            lemma_word_line_step(font, before, word, wrap);
            lemma_single_line_newlines(word);
            assert((n + 1) * la == n * la + la) by (nonlinear_arith);
        }
    }
}

/// Place the words one after the other from the caret. A word that runs over
/// the width limit is placed again, whole, from the start of the next line.
pub fn layout_words(
    font: &Font,
    state: &mut LayoutState,
    words: &Vec<Vec<char>>,
    wrap: WordWrap,
) -> (glyphs: Vec<PositionedGlyph>)
    requires
        font.wf(),
        old(state).within(ORIGIN_LIMIT as int),
        concat(texts(words@)).len() <= TEXT_LIMIT,
    ensures
        *final(state) == layout_of(*font, *old(state), texts(words@), wrap).state,
        glyphs@ == layout_of(*font, *old(state), texts(words@), wrap).glyphs,
{
    let ghost st0 = *state;
    let ghost all = texts(words@);
    let mut glyphs: Vec<PositionedGlyph> = Vec::new();
    let mut k: usize = 0;
    while k < words.len()
        invariant
            k <= words@.len(),
            font.wf(),
            all == texts(words@),
            st0 == *old(state),
            st0.within(ORIGIN_LIMIT as int),
            concat(all).len() <= TEXT_LIMIT,
            layout_of(*font, st0, all.take(k as int), wrap) == (Layout {
                state: *state,
                glyphs: glyphs@,
            }),
        decreases words@.len() - k,
    {
        let word = &words[k];
        let ghost before = *state;
        proof {
            assert(all.take(k + 1).drop_last() =~= all.take(k as int));
            assert(all.take(k + 1).last() == word@);
            lemma_concat_take(all, k as int);
            lemma_concat_take(all, k + 1);
            lemma_layout_bounds(*font, st0, all.take(k as int), wrap, TEXT_LIMIT as int);
            lemma_place_word_bounds(
                *font,
                before,
                word@,
                wrap,
                TEXT_LIMIT + concat(all.take(k as int)).len(),
            );
        }
        let first = position_text(font, state, word, wrap);
        let mut placed = match first {
            Some(g) => g,
            None => {
                proof {
                    lemma_no_wrap_fits(*font, *state, word@);
                }
                match position_text(font, state, word, WordWrap::NoWrap) {
                    Some(g) => g,
                    None => Vec::new(),
                }
            },
        };
        glyphs.append(&mut placed);
        k += 1;
    }
    proof {
        assert(all.take(words@.len() as int) =~= all);
    }
    glyphs
}

/// Cuts a text at its word boundaries with
/// `unicode_segmentation::UnicodeSegmentation::split_word_bounds`. The pieces
/// are those that the Unicode rules for word boundaries give; written one
/// after the other they are the text again.
#[verifier::external_body]
fn split_word_bounds(text: &str) -> (words: Vec<Vec<char>>)
    ensures
        texts(words@) == word_bounds(text@),
        concat(texts(words@)) == text@,
{
    unicode_segmentation::UnicodeSegmentation::split_word_bounds(text).map(
        |w| w.chars().collect(),
    ).collect()
}

/// Lay out a text that wraps at `width`: each word goes on the current line
/// if it fits there, else on the next.
pub fn layout_normal_wrap(font: &Font, state: &mut LayoutState, width: u32, text: &str) -> (glyphs:
    Vec<PositionedGlyph>)
    requires
        font.wf(),
        old(state).within(ORIGIN_LIMIT as int),
        text@.len() <= TEXT_LIMIT,
    ensures
        *final(state) == layout_of(
            *font,
            *old(state),
            word_bounds(text@),
            WordWrap::Normal(width),
        ).state,
        glyphs@ == layout_of(
            *font,
            *old(state),
            word_bounds(text@),
            WordWrap::Normal(width),
        ).glyphs,
{
    let words = split_word_bounds(text);
    layout_words(font, state, &words, WordWrap::Normal(width))
}

/// Lay out a text that never wraps: its glyphs stand as one pass over the
/// whole text places them.
pub fn no_wrap(font: &Font, state: &mut LayoutState, text: &str) -> (glyphs: Vec<PositionedGlyph>)
    requires
        font.wf(),
        old(state).within(ORIGIN_LIMIT as int),
        text@.len() <= TEXT_LIMIT,
    ensures
        *final(state) == run(*font, *old(state), text@, WordWrap::NoWrap).state,
        glyphs@ == run(*font, *old(state), text@, WordWrap::NoWrap).glyphs,
{
    let words = split_word_bounds(text);
    proof {
        lemma_no_wrap_is_one_pass(*font, *state, texts(words@));
    }
    layout_words(font, state, &words, WordWrap::NoWrap)
}

/// Lay out a text under a wrap policy.
pub fn layout_text(font: &Font, state: &mut LayoutState, text: &str, wrap: WordWrap) -> (glyphs:
    Vec<PositionedGlyph>)
    requires
        font.wf(),
        old(state).within(ORIGIN_LIMIT as int),
        text@.len() <= TEXT_LIMIT,
    ensures
        *final(state) == layout_of(*font, *old(state), word_bounds(text@), wrap).state,
        glyphs@ == layout_of(*font, *old(state), word_bounds(text@), wrap).glyphs,
        wrap == WordWrap::NoWrap ==> glyphs@ == run(
            *font,
            *old(state),
            text@,
            WordWrap::NoWrap,
        ).glyphs && *final(state) == run(*font, *old(state), text@, WordWrap::NoWrap).state,
        concat(word_bounds(text@)) == text@,
{
    let words = split_word_bounds(text);
    proof {
        lemma_no_wrap_is_one_pass(*font, *state, texts(words@));
    }
    layout_words(font, state, &words, wrap)
}

} // verus!
