//! Text as quads: a text is laid out, its glyphs are given room in the
//! atlas, and each glyph that has a slot becomes a quad.
use std::sync::Arc;
use vstd::prelude::*;
use crate::atlas::{is_queued, overflow_of, AtlasOverflow, GlyphAtlasCache};
use crate::compose::{compose, quad_of, QuadDescriptor, Transform};
use crate::font::{Font, GlyphId};
use crate::geometry::Point;
use crate::layout::{glyph_within, LayoutState, PositionedGlyph, WordWrap, ORIGIN_LIMIT, TEXT_LIMIT};
use crate::linebreak::{layout_of, layout_text, lemma_layout_glyphs_within, word_bounds};
use crate::packing::{
    all_held, all_visible, find, flushed, lemma_flushed_sound, lemma_flushed_when_held, rect_of,
    sound, AtlasSlot, Packing, Queued, Resident,
};

verus! {

/// The width and the height of the atlas of every `Text`.
pub const ATLAS_SIZE: u32 = 512;

/// The queue after one more glyph: a glyph with a box that is not empty is
/// queued, unless it is queued already.
pub open spec fn queue_glyph(queue: Seq<Queued>, g: PositionedGlyph) -> Seq<Queued> {
    match g.bounding_box {
        Some(bb) => if bb.width == 0 || bb.height == 0 || is_queued(queue, g.glyph_id) {
            queue
        } else {
            queue.push(Queued { glyph_id: g.glyph_id, screen_rect: bb })
        },
        None => queue,
    }
}

/// The queue that the glyphs of a layout make, in their order.
pub open spec fn queue_of(glyphs: Seq<PositionedGlyph>) -> Seq<Queued>
    decreases glyphs.len(),
{
    if glyphs.len() == 0 {
        Seq::empty()
    } else {
        queue_glyph(queue_of(glyphs.drop_last()), glyphs.last())
    }
}

/// The quad of a glyph: it has one where it has a box and its glyph has a
/// slot. The quad is drawn at the glyph's own box and covered by the slot's
/// rectangle of the atlas.
pub open spec fn quad_for(
    g: PositionedGlyph,
    residents: Seq<Resident>,
    atlas_size: (u32, u32),
) -> Option<QuadDescriptor> {
    match (g.bounding_box, find(residents, g.glyph_id, 0)) {
        (Some(bb), Some(i)) => Some(
            quad_of(
                AtlasSlot {
                    glyph_id: g.glyph_id,
                    atlas_rect: residents[i].slot.atlas_rect,
                    screen_rect: bb,
                },
                atlas_size,
            ),
        ),
        _ => None,
    }
}

/// The quads of the glyphs that have one, in the order of the glyphs.
pub open spec fn quads_for(
    glyphs: Seq<PositionedGlyph>,
    residents: Seq<Resident>,
    atlas_size: (u32, u32),
) -> Seq<QuadDescriptor>
    decreases glyphs.len(),
{
    if glyphs.len() == 0 {
        Seq::empty()
    } else {
        match quad_for(glyphs.last(), residents, atlas_size) {
            Some(q) => quads_for(glyphs.drop_last(), residents, atlas_size).push(q),
            None => quads_for(glyphs.drop_last(), residents, atlas_size),
        }
    }
}

/// The queue that a layout makes holds no glyph with an empty bitmap.
pub proof fn lemma_queue_of_visible(glyphs: Seq<PositionedGlyph>)
    ensures
        all_visible(queue_of(glyphs)),
    decreases glyphs.len(),
{
    if glyphs.len() > 0 {
        lemma_queue_of_visible(glyphs.drop_last());
    }
}

/// The quads depend on the atlas only through the place of each glyph's
/// bitmap: two sets of residents that keep every glyph at the same place
/// give the same quads.
pub proof fn lemma_quads_for_same_rects(
    glyphs: Seq<PositionedGlyph>,
    one: Seq<Resident>,
    other: Seq<Resident>,
    atlas_size: (u32, u32),
)
    requires
        forall|id: GlyphId| rect_of(one, id) == rect_of(other, id),
    ensures
        quads_for(glyphs, one, atlas_size) == quads_for(glyphs, other, atlas_size),
    decreases glyphs.len(),
{
    if glyphs.len() > 0 {
        lemma_quads_for_same_rects(glyphs.drop_last(), one, other, atlas_size);
        let id = glyphs.last().glyph_id;
        assert(rect_of(one, id) == rect_of(other, id));
    }
}

/// Setting the same text twice gives the same quads both times, where the
/// atlas is under no pressure: where after the first pass every glyph of
/// the text has its slot, the second pass over the same glyphs moves no
/// bitmap, makes no slot, and the quads of the text are what they were.
pub proof fn lemma_set_text_twice(
    p: Packing,
    atlas_width: u32,
    atlas_height: u32,
    glyphs: Seq<PositionedGlyph>,
    first_pass: u64,
    second_pass: u64,
)
    requires
        sound(p, atlas_width, atlas_height),
        all_held(
            flushed(p, atlas_width, atlas_height, queue_of(glyphs), first_pass).residents,
            queue_of(glyphs),
        ),
    ensures
        quads_for(
            glyphs,
            flushed(
                flushed(p, atlas_width, atlas_height, queue_of(glyphs), first_pass),
                atlas_width,
                atlas_height,
                queue_of(glyphs),
                second_pass,
            ).residents,
            (atlas_width, atlas_height),
        ) == quads_for(
            glyphs,
            flushed(p, atlas_width, atlas_height, queue_of(glyphs), first_pass).residents,
            (atlas_width, atlas_height),
        ),
        flushed(
            flushed(p, atlas_width, atlas_height, queue_of(glyphs), first_pass),
            atlas_width,
            atlas_height,
            queue_of(glyphs),
            second_pass,
        ).fresh.len() == 0,
{
    let queue = queue_of(glyphs);
    lemma_queue_of_visible(glyphs);
    lemma_flushed_sound(p, atlas_width, atlas_height, queue, first_pass);
    let once = flushed(p, atlas_width, atlas_height, queue, first_pass);
    let twice = flushed(once, atlas_width, atlas_height, queue, second_pass);
    assert forall|id: GlyphId| rect_of(twice.residents, id) == rect_of(once.residents, id) by {
        lemma_flushed_when_held(once, atlas_width, atlas_height, queue, second_pass, id);
    }
    lemma_flushed_when_held(once, atlas_width, atlas_height, queue, second_pass, GlyphId(0));
    lemma_quads_for_same_rects(
        glyphs,
        twice.residents,
        once.residents,
        (atlas_width, atlas_height),
    );
}

/// The quad moved by `by`.
pub open spec fn shifted(q: QuadDescriptor, by: Point) -> QuadDescriptor {
    QuadDescriptor {
        transform: Transform {
            translation: Point {
                x: (q.transform.translation.x + by.x) as i64,
                y: (q.transform.translation.y + by.y) as i64,
            },
            scale: q.transform.scale,
        },
        uv_origin: q.uv_origin,
        uv_size: q.uv_size,
    }
}

/// Each quad moved by `by`.
pub open spec fn moved(quads: Seq<QuadDescriptor>, by: Point) -> Seq<QuadDescriptor> {
    Seq::new(quads.len(), |i: int| shifted(quads[i], by))
}

/// The point is at most `ORIGIN_LIMIT` away from the origin, along each axis.
pub open spec fn near_origin(p: Point) -> bool {
    &&& -ORIGIN_LIMIT <= p.x <= ORIGIN_LIMIT
    &&& -ORIGIN_LIMIT <= p.y <= ORIGIN_LIMIT
}

/// Makes another handle to a shared font with `Arc::clone`: the new handle
/// points to the same font.
#[verifier::external_body]
fn share(font: &Arc<Font>) -> (r: Arc<Font>)
    ensures
        *r == **font,
{
    Arc::clone(font)
}

fn shift(q: QuadDescriptor, by: Point) -> (r: QuadDescriptor)
    requires
        near_origin(q.transform.translation),
        near_origin(by),
    ensures
        r == shifted(q, by),
{
    QuadDescriptor {
        transform: Transform {
            translation: Point {
                x: q.transform.translation.x + by.x,
                y: q.transform.translation.y + by.y,
            },
            scale: q.transform.scale,
        },
        uv_origin: q.uv_origin,
        uv_size: q.uv_size,
    }
}

/// Used to draw text: lays a text out, keeps its glyphs in an atlas, and
/// gives the quads that draw it.
pub struct Text {
    font: Arc<Font>,
    wrap: WordWrap,
    cache: GlyphAtlasCache,
    base: Vec<QuadDescriptor>,
    quads: Vec<QuadDescriptor>,
    position: Point,
    state: LayoutState,
    text: String,
}

impl Text {
    /// The font.
    pub closed spec fn font_view(&self) -> Font {
        *self.font
    }

    /// The wrap policy.
    pub closed spec fn wrap_policy(&self) -> WordWrap {
        self.wrap
    }

    /// The glyph cache.
    pub closed spec fn cache(&self) -> GlyphAtlasCache {
        self.cache
    }

    /// The quads of the text before they are moved to its position.
    pub closed spec fn base_quads(&self) -> Seq<QuadDescriptor> {
        self.base@
    }

    /// The quads of the text.
    pub closed spec fn current(&self) -> Seq<QuadDescriptor> {
        self.quads@
    }

    /// The position of the text.
    pub closed spec fn offset(&self) -> Point {
        self.position
    }

    /// The caret and the previous glyph after the last layout.
    pub closed spec fn caret_state(&self) -> LayoutState {
        self.state
    }

    /// The text that was laid out last.
    pub closed spec fn last_text(&self) -> Seq<char> {
        self.text@
    }

    /// The font and the cache are well formed; nothing is queued; the quads
    /// are the base quads moved to the position of the text.
    pub closed spec fn wf(&self) -> bool {
        &&& self.font.wf()
        &&& self.cache.wf()
        &&& self.cache.queued().len() == 0
        &&& self.text@.len() <= TEXT_LIMIT
        &&& near_origin(self.position)
        &&& self.quads@ == moved(self.base@, self.position)
        &&& forall|i: int|
            0 <= i < self.base@.len() ==> near_origin((#[trigger] self.base@[i]).transform.translation)
    }

    /// What holds of every `Text`: its quads are its base quads moved to its
    /// position, and its cache is well formed with an empty queue.
    pub proof fn lemma_wf(&self)
        requires
            self.wf(),
        ensures
            self.font_view().wf(),
            self.cache().wf(),
            self.cache().queued().len() == 0,
            self.current() == moved(self.base_quads(), self.offset()),
            self.last_text().len() <= TEXT_LIMIT,
    {
    }

    /// Create a `Text` from an existing font: no text yet, at the origin,
    /// over an empty atlas of 512 by 512 pixels.
    pub fn from_font(font: Arc<Font>, wrap: WordWrap) -> (t: Self)
        requires
            font.wf(),
        ensures
            t.wf(),
            t.font_view() == *font,
            t.wrap_policy() == wrap,
            t.current().len() == 0,
            t.base_quads().len() == 0,
            t.offset() == (Point { x: 0, y: 0 }),
            t.caret_state() == LayoutState::origin(),
            t.last_text().len() == 0,
            t.cache().atlas_width() == ATLAS_SIZE,
            t.cache().atlas_height() == ATLAS_SIZE,
            t.cache().residents().len() == 0,
            t.cache().shelves().len() == 0,
            t.cache().pass() == 0,
    {
        let t = Text {
            font,
            wrap,
            cache: GlyphAtlasCache::new(ATLAS_SIZE, ATLAS_SIZE),
            base: Vec::new(),
            quads: Vec::new(),
            position: Point { x: 0, y: 0 },
            state: LayoutState::start(),
            text: String::new(),
        };
        proof {
            assert(t.quads@ =~= moved(t.base@, t.position));
        }
        t
    }

    /// Get another handle to the font
    pub fn font(&self) -> (f: Arc<Font>)
        ensures
            *f == self.font_view(),
    {
        share(&self.font)
    }

    /// Current caret
    pub fn caret(&self) -> (p: Point)
        ensures
            p == self.caret_state().caret,
    {
        self.state.caret
    }

    /// The quads of the text, one for each glyph that has a box and a slot,
    /// in the order of the glyphs.
    pub fn current_quads(&self) -> (q: &[QuadDescriptor])
        ensures
            q@ == self.current(),
    {
        self.quads.as_slice()
    }

    /// A copy of the quads of the text.
    pub fn models(&self) -> (q: Vec<QuadDescriptor>)
        ensures
            q@ == self.current(),
    {
        let mut out: Vec<QuadDescriptor> = Vec::new();
        let mut i: usize = 0;
        while i < self.quads.len()
            invariant
                i <= self.quads@.len(),
                out@ == self.quads@.take(i as int),
            decreases self.quads@.len() - i,
        {
            out.push(self.quads[i]);
            proof {
                assert(out@ =~= self.quads@.take(i + 1));
            }
            i += 1;
        }
        proof {
            assert(self.quads@.take(self.quads@.len() as int) =~= self.quads@);
        }
        out
    }

    /// The coverage bytes of the atlas, row by row.
    pub fn texture(&self) -> (b: &[u8])
        ensures
            b@ == self.cache().pixels(),
    {
        self.cache.read_full_buffer()
    }

    /// Set the position of the text: every quad is drawn at its place in the
    /// layout, moved by `position`. Neither the layout nor the atlas
    /// changes.
    pub fn position(&mut self, position: Point)
        requires
            old(self).wf(),
            near_origin(position),
        ensures
            final(self).wf(),
            final(self).offset() == position,
            final(self).current() == moved(old(self).base_quads(), position),
            final(self).base_quads() == old(self).base_quads(),
            final(self).cache() == old(self).cache(),
            final(self).font_view() == old(self).font_view(),
            final(self).wrap_policy() == old(self).wrap_policy(),
            final(self).caret_state() == old(self).caret_state(),
            final(self).last_text() == old(self).last_text(),
    {
        let mut quads: Vec<QuadDescriptor> = Vec::new();
        let mut i: usize = 0;
        while i < self.base.len()
            invariant
                *self == *old(self),
                self.wf(),
                near_origin(position),
                i <= self.base@.len(),
                quads@ == moved(self.base@.take(i as int), position),
            decreases self.base@.len() - i,
        {
            let q = shift(self.base[i], position);
            quads.push(q);
            proof {
                assert(quads@ =~= moved(self.base@.take(i + 1), position));
            }
            i += 1;
        }
        proof {
            assert(self.base@.take(self.base@.len() as int) =~= self.base@);
        }
        self.position = position;
        self.quads = quads;
    }

    /// Set the text: it is laid out from the origin under the wrap policy,
    /// each glyph with a box is queued, one pass gives the queued glyphs
    /// slots and has `rasterize` draw the new ones, and every glyph whose
    /// glyph then has a slot becomes a quad. A glyph without a slot is left
    /// out. Fails, and keeps the quads as they were, where a glyph without a
    /// slot is larger than the whole atlas.
    pub fn set_text<F: Fn(GlyphId, u32, u32) -> Vec<u8>>(&mut self, text: &str, rasterize: F) -> (r:
        Result<(), AtlasOverflow>)
        requires
            old(self).wf(),
            text@.len() <= TEXT_LIMIT,
            forall|id: GlyphId, width: u32, height: u32| rasterize.requires((id, width, height)),
        ensures
            final(self).wf(),
            final(self).font_view() == old(self).font_view(),
            final(self).wrap_policy() == old(self).wrap_policy(),
            final(self).offset() == old(self).offset(),
            match overflow_of(
                old(self).cache().residents(),
                queue_of(
                    layout_of(
                        old(self).font_view(),
                        LayoutState::origin(),
                        word_bounds(text@),
                        old(self).wrap_policy(),
                    ).glyphs,
                ),
                old(self).cache().atlas_width(),
                old(self).cache().atlas_height(),
            ) {
                Some(e) => r == Err::<(), AtlasOverflow>(e) && final(self).cache().same_atlas(
                    old(self).cache(),
                ) && final(self).current() == old(self).current() && final(self).base_quads()
                    == old(self).base_quads() && final(self).caret_state() == old(self).caret_state() && final(self).last_text() == old(self).last_text(),
                None => r is Ok && final(self).cache().passed(
                    old(self).cache(),
                    queue_of(
                        layout_of(
                            old(self).font_view(),
                            LayoutState::origin(),
                            word_bounds(text@),
                            old(self).wrap_policy(),
                        ).glyphs,
                    ),
                    rasterize,
                ) && final(self).caret_state() == layout_of(
                    old(self).font_view(),
                    LayoutState::origin(),
                    word_bounds(text@),
                    old(self).wrap_policy(),
                ).state && final(self).last_text() == text@ && final(self).base_quads()
                    == quads_for(
                    layout_of(
                        old(self).font_view(),
                        LayoutState::origin(),
                        word_bounds(text@),
                        old(self).wrap_policy(),
                    ).glyphs,
                    final(self).cache().residents(),
                    (old(self).cache().atlas_width(), old(self).cache().atlas_height()),
                ) && final(self).current() == moved(final(self).base_quads(), final(self).offset()),
            },
    {
        let ghost before = *self;
        let mut state = LayoutState::start();
        let glyphs = layout_text(&self.font, &mut state, text, self.wrap);
        proof {
            lemma_layout_glyphs_within(
                before.font_view(),
                LayoutState::origin(),
                word_bounds(text@),
                self.wrap,
                0,
            );
        }
        let mut i: usize = 0;
        while i < glyphs.len()
            invariant
                i <= glyphs@.len(),
                self.font == before.font,
                self.wrap == before.wrap,
                self.base == before.base,
                self.quads == before.quads,
                self.position == before.position,
                self.state == before.state,
                self.text == before.text,
                self.cache.wf(),
                self.cache.same_atlas(before.cache),
                self.cache.queued() == queue_of(glyphs@.take(i as int)),
            decreases glyphs@.len() - i,
        {
            let g = glyphs[i];
            proof {
                assert(glyphs@.take(i + 1).drop_last() =~= glyphs@.take(i as int));
            }
            if let Some(bb) = g.bounding_box {
                self.cache.queue(g.glyph_id, bb);
            }
            i += 1;
        }
        proof {
            assert(glyphs@.take(glyphs@.len() as int) =~= glyphs@);
        }
        match self.cache.flush(rasterize) {
            Ok(()) => {},
            Err(e) => {
                self.cache.clear_queue();
                return Err(e);
            },
        }
        let atlas_size = self.cache.dimensions();
        let mut base: Vec<QuadDescriptor> = Vec::new();
        let mut quads: Vec<QuadDescriptor> = Vec::new();
        let mut i: usize = 0;
        while i < glyphs.len()
            invariant
                i <= glyphs@.len(),
                self.cache.wf(),
                near_origin(self.position),
                atlas_size == (self.cache.atlas_width(), self.cache.atlas_height()),
                forall|k: int|
                    0 <= k < glyphs@.len() ==> glyph_within(
                        #[trigger] glyphs@[k],
                        ORIGIN_LIMIT as int,
                        ORIGIN_LIMIT as int,
                    ),
                base@ == quads_for(glyphs@.take(i as int), self.cache.residents(), atlas_size),
                quads@ == moved(base@, self.position),
                forall|k: int|
                    0 <= k < base@.len() ==> near_origin((#[trigger] base@[k]).transform.translation),
            decreases glyphs@.len() - i,
        {
            let g = glyphs[i];
            proof {
                assert(glyphs@.take(i + 1).drop_last() =~= glyphs@.take(i as int));
                assert(glyph_within(glyphs@[i as int], ORIGIN_LIMIT as int, ORIGIN_LIMIT as int));
            }
            if let Some(bb) = g.bounding_box {
                if let Some(slot) = self.cache.resolve(g.glyph_id) {
                    let q = compose(
                        AtlasSlot {
                            glyph_id: g.glyph_id,
                            atlas_rect: slot.atlas_rect,
                            screen_rect: bb,
                        },
                        atlas_size,
                    );
                    base.push(q);
                    quads.push(shift(q, self.position));
                    proof {
                        assert(quads@ =~= moved(base@, self.position));
                    }
                }
            }
            i += 1;
        }
        proof {
            assert(glyphs@.take(glyphs@.len() as int) =~= glyphs@);
        }
        self.base = base;
        self.quads = quads;
        self.state = state;
        self.text = text.to_owned();
        Ok(())
    }

    /// Lay the last text out again under a new wrap policy.
    pub fn reflow<F: Fn(GlyphId, u32, u32) -> Vec<u8>>(&mut self, wrap: WordWrap, rasterize: F) -> (r:
        Result<(), AtlasOverflow>)
        requires
            old(self).wf(),
            forall|id: GlyphId, width: u32, height: u32| rasterize.requires((id, width, height)),
        ensures
            final(self).wf(),
            final(self).font_view() == old(self).font_view(),
            final(self).wrap_policy() == wrap,
            final(self).offset() == old(self).offset(),
            match overflow_of(
                old(self).cache().residents(),
                queue_of(
                    layout_of(
                        old(self).font_view(),
                        LayoutState::origin(),
                        word_bounds(old(self).last_text()),
                        wrap,
                    ).glyphs,
                ),
                old(self).cache().atlas_width(),
                old(self).cache().atlas_height(),
            ) {
                Some(e) => r == Err::<(), AtlasOverflow>(e) && final(self).cache().same_atlas(
                    old(self).cache(),
                ) && final(self).current() == old(self).current() && final(self).base_quads()
                    == old(self).base_quads() && final(self).caret_state() == old(self).caret_state() && final(self).last_text() == old(self).last_text(),
                None => r is Ok && final(self).cache().passed(
                    old(self).cache(),
                    queue_of(
                        layout_of(
                            old(self).font_view(),
                            LayoutState::origin(),
                            word_bounds(old(self).last_text()),
                            wrap,
                        ).glyphs,
                    ),
                    rasterize,
                ) && final(self).caret_state() == layout_of(
                    old(self).font_view(),
                    LayoutState::origin(),
                    word_bounds(old(self).last_text()),
                    wrap,
                ).state && final(self).last_text() == old(self).last_text() && final(self).base_quads() == quads_for(
                    layout_of(
                        old(self).font_view(),
                        LayoutState::origin(),
                        word_bounds(old(self).last_text()),
                        wrap,
                    ).glyphs,
                    final(self).cache().residents(),
                    (old(self).cache().atlas_width(), old(self).cache().atlas_height()),
                ) && final(self).current() == moved(final(self).base_quads(), final(self).offset()),
            },
    {
        self.wrap = wrap;
        let text = self.text.clone();
        self.set_text(text.as_str(), rasterize)
    }
}

} // verus!
