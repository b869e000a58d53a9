//! The glyph atlas: a fixed-size texture into which glyph bitmaps are
//! packed, with the least recently used glyphs making way when it is full.
use vstd::prelude::*;
use crate::font::GlyphId;
use crate::geometry::{AtlasRect, ScreenRect};
use crate::grid::{in_region, source_of, written, PixelGrid};
use crate::lru::LruSlots;
use crate::packing::{
    all_visible, bottom, can_place, evict, find, first_fit, first_too_large, flushed, holds,
    lemma_evict_sound, lemma_find, lemma_first_fit, lemma_lodge_sound, lemma_make_room_keeps_out,
    lemma_make_room_sound, lemma_place_sound, lemma_sound_slots, lemma_touch_sound, lodge,
    lodge_all, make_room, on_shelf, place, seat, shelf_ok, sound, touch, touch_all, trim,
    AtlasSlot, Packing, Queued, Resident, Shelf,
};

verus! {

/// A queued glyph is larger than the whole atlas.
#[derive(Debug, Copy, Clone, PartialEq, Eq, Structural)]
pub struct AtlasOverflow {
    /// The glyph
    pub glyph_id: GlyphId,
    /// The width of its bitmap
    pub width: u32,
    /// The height of its bitmap
    pub height: u32,
}

/// The residents, the shelves and the slots made so far, as one packing.
pub open spec fn packing_of(
    slots: LruSlots<Resident>,
    shelves: Vec<Shelf>,
    fresh: Seq<AtlasSlot>,
) -> Packing {
    Packing { residents: slots@, shelves: shelves@, fresh }
}

/// The number of the pass after pass `pass`.
pub open spec fn next_pass(pass: u64) -> u64 {
    if pass == u64::MAX {
        0
    } else {
        (pass + 1) as u64
    }
}

/// Some glyph of the queue is `id`.
pub open spec fn is_queued(queue: Seq<Queued>, id: GlyphId) -> bool {
    exists|i: int| 0 <= i < queue.len() && (#[trigger] queue[i]).glyph_id == id
}

fn find_resident(slots: &LruSlots<Resident>, id: GlyphId) -> (r: Option<usize>)
    requires
        slots.wf(),
    ensures
        match r {
            Some(i) => find(slots@, id, 0) == Some(i as int),
            None => find(slots@, id, 0) is None,
        },
{
    let mut i: usize = 0;
    while i < slots.len()
        invariant
            slots.wf(),
            i <= slots@.len(),
            find(slots@, id, 0) == find(slots@, id, i as int),
        decreases slots@.len() - i,
    {
        if slots.get(i).slot.glyph_id == id {
            return Some(i);
        }
        i += 1;
    }
    None
}

fn find_shelf(shelves: &Vec<Shelf>, atlas_width: u32, width: u32, height: u32) -> (r: Option<usize>)
    ensures
        match r {
            Some(i) => first_fit(shelves@, atlas_width, width, height, 0) == Some(i as int),
            None => first_fit(shelves@, atlas_width, width, height, 0) is None,
        },
{
    let mut i: usize = 0;
    while i < shelves.len()
        invariant
            i <= shelves@.len(),
            first_fit(shelves@, atlas_width, width, height, 0) == first_fit(
                shelves@,
                atlas_width,
                width,
                height,
                i as int,
            ),
        decreases shelves@.len() - i,
    {
        let s = shelves[i];
        if width <= atlas_width && s.used <= atlas_width - width && height <= s.height {
            return Some(i);
        }
        i += 1;
    }
    None
}

fn has_room(
    shelves: &Vec<Shelf>,
    atlas_width: u32,
    atlas_height: u32,
    width: u32,
    height: u32,
) -> (b: bool)
    requires
        forall|i: int|
            0 <= i < shelves@.len() ==> shelf_ok(#[trigger] shelves@[i], atlas_width, atlas_height),
    ensures
        b == (first_fit(shelves@, atlas_width, width, height, 0) is Some || (width <= atlas_width
            && bottom(shelves@) + height <= atlas_height)),
{
    if find_shelf(shelves, atlas_width, width, height).is_some() {
        return true;
    }
    let n = shelves.len();
    let low: u32 = if n == 0 {
        0
    } else {
        proof {
            assert(shelf_ok(shelves@[n - 1], atlas_width, atlas_height));
        }
        shelves[n - 1].y + shelves[n - 1].height
    };
    width <= atlas_width && height <= atlas_height - low
}

fn stands_on(slots: &LruSlots<Resident>, shelf: usize) -> (b: bool)
    requires
        slots.wf(),
    ensures
        b == on_shelf(slots@, shelf, 0),
{
    let mut i: usize = 0;
    while i < slots.len()
        invariant
            slots.wf(),
            i <= slots@.len(),
            on_shelf(slots@, shelf, 0) == on_shelf(slots@, shelf, i as int),
        decreases slots@.len() - i,
    {
        if slots.get(i).shelf == shelf {
            return true;
        }
        i += 1;
    }
    false
}

fn trim_shelves(shelves: &mut Vec<Shelf>)
    ensures
        final(shelves)@ == trim(old(shelves)@),
{
    while shelves.len() > 0 && shelves[shelves.len() - 1].used == 0
        invariant
            trim(shelves@) == trim(old(shelves)@),
        decreases shelves@.len(),
    {
        proof {
            assert(shelves@.drop_last() =~= shelves@.take(shelves@.len() - 1));
        }
        let ghost before = shelves@;
        shelves.pop();
        proof {
            assert(shelves@ =~= before.drop_last());
        }
    }
}

fn evict_oldest(slots: &mut LruSlots<Resident>, shelves: &mut Vec<Shelf>)
    requires
        old(slots).wf(),
        old(slots)@.len() > 0,
    ensures
        final(slots).wf(),
        packing_of(*final(slots), *final(shelves), Seq::empty()) == evict(
            packing_of(*old(slots), *old(shelves), Seq::empty()),
        ),
{
    let gone = slots.pop_front();
    if !stands_on(slots, gone.shelf) && gone.shelf < shelves.len() {
        let s = shelves[gone.shelf];
        shelves[gone.shelf] = Shelf { y: s.y, height: s.height, used: 0 };
    }
    trim_shelves(shelves);
}

fn free_room(
    slots: &mut LruSlots<Resident>,
    shelves: &mut Vec<Shelf>,
    atlas_width: u32,
    atlas_height: u32,
    width: u32,
    height: u32,
    stamp: u64,
)
    requires
        old(slots).wf(),
        sound(packing_of(*old(slots), *old(shelves), Seq::empty()), atlas_width, atlas_height),
    ensures
        final(slots).wf(),
        packing_of(*final(slots), *final(shelves), Seq::empty()) == make_room(
            packing_of(*old(slots), *old(shelves), Seq::empty()),
            atlas_width,
            atlas_height,
            width,
            height,
            stamp,
        ),
{
    loop
        invariant
            slots.wf(),
            sound(packing_of(*slots, *shelves, Seq::empty()), atlas_width, atlas_height),
            make_room(
                packing_of(*slots, *shelves, Seq::empty()),
                atlas_width,
                atlas_height,
                width,
                height,
                stamp,
            ) == make_room(
                packing_of(*old(slots), *old(shelves), Seq::empty()),
                atlas_width,
                atlas_height,
                width,
                height,
                stamp,
            ),
        ensures
            slots.wf(),
            packing_of(*slots, *shelves, Seq::empty()) == make_room(
                packing_of(*old(slots), *old(shelves), Seq::empty()),
                atlas_width,
                atlas_height,
                width,
                height,
                stamp,
            ),
        decreases slots@.len(),
    {
        if has_room(shelves, atlas_width, atlas_height, width, height) || slots.len() == 0
            || slots.get(0).stamp == stamp {
            break ;
        }
        proof {
            lemma_evict_sound(
                packing_of(*slots, *shelves, Seq::empty()),
                atlas_width,
                atlas_height,
            );
        }
        evict_oldest(slots, shelves);
    }
}

fn place_glyph(
    slots: &mut LruSlots<Resident>,
    shelves: &mut Vec<Shelf>,
    fresh: &mut Vec<AtlasSlot>,
    atlas_width: u32,
    atlas_height: u32,
    q: Queued,
    stamp: u64,
)
    requires
        old(slots).wf(),
        sound(packing_of(*old(slots), *old(shelves), old(fresh)@), atlas_width, atlas_height),
        can_place(
            packing_of(*old(slots), *old(shelves), old(fresh)@),
            atlas_width,
            atlas_height,
            q.screen_rect.width,
            q.screen_rect.height,
        ),
        !holds(old(slots)@, q.glyph_id),
        q.screen_rect.width > 0,
        q.screen_rect.height > 0,
    ensures
        final(slots).wf(),
        packing_of(*final(slots), *final(shelves), final(fresh)@) == place(
            packing_of(*old(slots), *old(shelves), old(fresh)@),
            atlas_width,
            q,
            stamp,
        ),
{
    let width = q.screen_rect.width;
    let height = q.screen_rect.height;
    let ghost before = packing_of(*slots, *shelves, fresh@);
    proof {
        lemma_place_sound(before, atlas_width, atlas_height, q, stamp);
        lemma_first_fit(shelves@, atlas_width, width, height, 0);
    }
    let resident = match find_shelf(shelves, atlas_width, width, height) {
        Some(i) => {
            let s = shelves[i];
            shelves[i] = Shelf { y: s.y, height: s.height, used: s.used + width };
            Resident {
                slot: AtlasSlot {
                    glyph_id: q.glyph_id,
                    atlas_rect: AtlasRect { x: s.used, y: s.y, width, height },
                    screen_rect: q.screen_rect,
                },
                shelf: i,
                stamp,
            }
        },
        None => {
            let n = shelves.len();
            let low: u32 = if n == 0 {
                0
            } else {
                proof {
                    assert(shelf_ok(shelves@[n - 1], atlas_width, atlas_height));
                }
                shelves[n - 1].y + shelves[n - 1].height
            };
            shelves.push(Shelf { y: low, height, used: width });
            Resident {
                slot: AtlasSlot {
                    glyph_id: q.glyph_id,
                    atlas_rect: AtlasRect { x: 0, y: low, width, height },
                    screen_rect: q.screen_rect,
                },
                shelf: n,
                stamp,
            }
        },
    };
    slots.push_back(resident);
    fresh.push(resident.slot);
    proof {
        assert(resident == seat(before, atlas_width, q, stamp));
        assert(shelves@ =~= place(before, atlas_width, q, stamp).shelves);
    }
}

fn touch_glyph(slots: &mut LruSlots<Resident>, q: Queued, stamp: u64)
    requires
        old(slots).wf(),
    ensures
        final(slots).wf(),
        final(slots)@ == touch(
            Packing { residents: old(slots)@, shelves: Seq::empty(), fresh: Seq::empty() },
            q,
            stamp,
        ).residents,
{
    match find_resident(slots, q.glyph_id) {
        Some(i) => {
            proof {
                lemma_find(slots@, q.glyph_id, 0);
            }
            let r = slots.remove(i);
            slots.push_back(
                Resident {
                    slot: AtlasSlot {
                        glyph_id: q.glyph_id,
                        atlas_rect: r.slot.atlas_rect,
                        screen_rect: q.screen_rect,
                    },
                    shelf: r.shelf,
                    stamp,
                },
            );
        },
        None => {},
    }
}

fn lodge_glyph(
    slots: &mut LruSlots<Resident>,
    shelves: &mut Vec<Shelf>,
    fresh: &mut Vec<AtlasSlot>,
    atlas_width: u32,
    atlas_height: u32,
    q: Queued,
    stamp: u64,
)
    requires
        old(slots).wf(),
        sound(packing_of(*old(slots), *old(shelves), old(fresh)@), atlas_width, atlas_height),
        q.screen_rect.width > 0,
        q.screen_rect.height > 0,
    ensures
        final(slots).wf(),
        packing_of(*final(slots), *final(shelves), final(fresh)@) == lodge(
            packing_of(*old(slots), *old(shelves), old(fresh)@),
            atlas_width,
            atlas_height,
            q,
            stamp,
        ),
{
    let ghost before = packing_of(*slots, *shelves, fresh@);
    let width = q.screen_rect.width;
    let height = q.screen_rect.height;
    if find_resident(slots, q.glyph_id).is_none() {
        proof {
            lemma_make_room_fresh(before, atlas_width, atlas_height, width, height, stamp);
            lemma_make_room_sound(before, atlas_width, atlas_height, width, height, stamp);
            lemma_make_room_keeps_out(
                before,
                atlas_width,
                atlas_height,
                width,
                height,
                stamp,
                q.glyph_id,
            );
            assert(sound(packing_of(*slots, *shelves, Seq::empty()), atlas_width, atlas_height));
        }
        free_room(slots, shelves, atlas_width, atlas_height, width, height, stamp);
        proof {
            let roomy = make_room(before, atlas_width, atlas_height, width, height, stamp);
            assert(packing_of(*slots, *shelves, fresh@) == roomy);
        }
        if has_room(shelves, atlas_width, atlas_height, width, height) {
            place_glyph(slots, shelves, fresh, atlas_width, atlas_height, q, stamp);
        }
    }
}

/// Making room does not look at the slots made so far, and leaves them as
/// they are.
pub proof fn lemma_make_room_fresh(
    p: Packing,
    atlas_width: u32,
    atlas_height: u32,
    width: u32,
    height: u32,
    stamp: u64,
)
    ensures
        make_room(p, atlas_width, atlas_height, width, height, stamp) == (Packing {
            fresh: p.fresh,
            ..make_room(
                Packing { residents: p.residents, shelves: p.shelves, fresh: Seq::empty() },
                atlas_width,
                atlas_height,
                width,
                height,
                stamp,
            )
        }),
    decreases p.residents.len(),
{
    let bare = Packing { residents: p.residents, shelves: p.shelves, fresh: Seq::empty() };
    if !(can_place(p, atlas_width, atlas_height, width, height) || p.residents.len() == 0
        || p.residents[0].stamp == stamp) {
        lemma_make_room_fresh(evict(p), atlas_width, atlas_height, width, height, stamp);
        assert(evict(bare) == (Packing {
            residents: evict(p).residents,
            shelves: evict(p).shelves,
            fresh: Seq::empty(),
        }));
    }
}

/// The bytes of each bitmap.
pub open spec fn bytes_of(bitmaps: Seq<Vec<u8>>) -> Seq<Seq<u8>> {
    Seq::new(bitmaps.len(), |i: int| bitmaps[i]@)
}

/// The atlas after each new slot has had its bitmap written into it, in the
/// order of the slots.
pub open spec fn painted(
    pixels: Seq<u8>,
    width: u32,
    fresh: Seq<AtlasSlot>,
    bitmaps: Seq<Seq<u8>>,
) -> Seq<u8>
    decreases fresh.len(),
{
    if fresh.len() == 0 || bitmaps.len() != fresh.len() {
        pixels
    } else {
        written(
            painted(pixels, width, fresh.drop_last(), bitmaps.drop_last()),
            width,
            (fresh.last().atlas_rect.x, fresh.last().atlas_rect.y),
            (fresh.last().atlas_rect.width, fresh.last().atlas_rect.height),
            bitmaps.last(),
        )
    }
}

/// Each bitmap is what `rasterize` gave for the slot at its place: for the
/// glyph of the slot, at the width and height of the slot.
pub open spec fn drawn_by<F: Fn(GlyphId, u32, u32) -> Vec<u8>>(
    rasterize: F,
    fresh: Seq<AtlasSlot>,
    bitmaps: Seq<Vec<u8>>,
) -> bool {
    &&& bitmaps.len() == fresh.len()
    &&& forall|j: int|
        0 <= j < fresh.len() ==> rasterize.ensures(
            ((#[trigger] fresh[j]).glyph_id, fresh[j].atlas_rect.width, fresh[j].atlas_rect.height),
            bitmaps[j],
        )
}

/// The error that a pass over `queue` ends with: the first queued glyph
/// without a slot that is larger than the whole atlas, if there is one.
pub open spec fn overflow_of(
    residents: Seq<Resident>,
    queue: Seq<Queued>,
    atlas_width: u32,
    atlas_height: u32,
) -> Option<AtlasOverflow> {
    match first_too_large(residents, queue, atlas_width, atlas_height, 0) {
        Some(i) => Some(
            AtlasOverflow {
                glyph_id: queue[i].glyph_id,
                width: queue[i].screen_rect.width,
                height: queue[i].screen_rect.height,
            },
        ),
        None => None,
    }
}

/// A glyph cache over an atlas of fixed size.
pub struct GlyphAtlasCache {
    grid: PixelGrid,
    slots: LruSlots<Resident>,
    shelves: Vec<Shelf>,
    queue: Vec<Queued>,
    pass: u64,
}

impl GlyphAtlasCache {
    /// The width of the atlas in pixels.
    pub closed spec fn atlas_width(&self) -> u32 {
        self.grid.cols()
    }

    /// The height of the atlas in pixels.
    pub closed spec fn atlas_height(&self) -> u32 {
        self.grid.rows()
    }

    /// The coverage bytes of the atlas, row by row.
    pub closed spec fn pixels(&self) -> Seq<u8> {
        self.grid@
    }

    /// The coverage byte of one pixel of the atlas.
    pub closed spec fn pixel(&self, px: int, py: int) -> u8 {
        self.grid.pixel(px, py)
    }

    /// The glyphs in the atlas, least recently used first.
    pub closed spec fn residents(&self) -> Seq<Resident> {
        self.slots@
    }

    /// The shelves, from the top.
    pub closed spec fn shelves(&self) -> Seq<Shelf> {
        self.shelves@
    }

    /// The glyphs queued for the next pass.
    pub closed spec fn queued(&self) -> Seq<Queued> {
        self.queue@
    }

    /// The number of the last pass.
    pub closed spec fn pass(&self) -> u64 {
        self.pass
    }

    /// The residents and the shelves as a packing.
    pub open spec fn packing(&self) -> Packing {
        Packing { residents: self.residents(), shelves: self.shelves(), fresh: Seq::empty() }
    }

    /// The packing is sound, there is a byte for each pixel, and every queued
    /// glyph has a bitmap that is not empty.
    pub closed spec fn wf(&self) -> bool {
        &&& self.grid.wf()
        &&& self.slots.wf()
        &&& sound(self.packing(), self.grid.cols(), self.grid.rows())
        &&& all_visible(self.queue@)
    }

    /// The slot of glyph `id`, if it has one.
    pub open spec fn slot_of(&self, id: GlyphId) -> Option<AtlasSlot> {
        match find(self.residents(), id, 0) {
            Some(i) => Some(self.residents()[i].slot),
            None => None,
        }
    }

    /// The cache after a pass over `queue` that made `self` of `before`: the
    /// queue is empty, the packing is what the pass makes of it, and each
    /// new slot holds the bitmap that `rasterize` gave for it.
    pub open spec fn passed<F: Fn(GlyphId, u32, u32) -> Vec<u8>>(
        &self,
        before: GlyphAtlasCache,
        queue: Seq<Queued>,
        rasterize: F,
    ) -> bool {
        let done = flushed(
            before.packing(),
            before.atlas_width(),
            before.atlas_height(),
            queue,
            next_pass(before.pass()),
        );
        &&& self.atlas_width() == before.atlas_width()
        &&& self.atlas_height() == before.atlas_height()
        &&& self.pass() == next_pass(before.pass())
        &&& self.queued().len() == 0
        &&& self.residents() == done.residents
        &&& self.shelves() == done.shelves
        &&& exists|bitmaps: Seq<Vec<u8>>|
            drawn_by(rasterize, done.fresh, bitmaps) && self.pixels() == painted(
                before.pixels(),
                before.atlas_width(),
                done.fresh,
                bytes_of(bitmaps),
            )
    }

    /// The cache holds and shows what `before` does, but for the queue.
    pub open spec fn same_atlas(&self, before: GlyphAtlasCache) -> bool {
        &&& self.atlas_width() == before.atlas_width()
        &&& self.atlas_height() == before.atlas_height()
        &&& self.pass() == before.pass()
        &&& self.residents() == before.residents()
        &&& self.shelves() == before.shelves()
        &&& self.pixels() == before.pixels()
    }

    /// What holds of every cache: its packing is sound, so no glyph has two
    /// slots and no two slots overlap; the atlas has a byte for each pixel;
    /// no queued glyph has an empty bitmap.
    pub proof fn lemma_wf(&self)
        requires
            self.wf(),
        ensures
            sound(self.packing(), self.atlas_width(), self.atlas_height()),
            all_visible(self.queued()),
            self.pixels().len() == self.atlas_width() * self.atlas_height(),
    {
        self.grid.lemma_len();
    }

    /// Two glyphs that both have slots have slots that share no pixel, and
    /// every slot lies inside the atlas.
    pub proof fn lemma_slots_apart(&self, a: GlyphId, b: GlyphId)
        requires
            self.wf(),
            a != b,
            self.slot_of(a) is Some,
            self.slot_of(b) is Some,
        ensures
            self.slot_of(a)->Some_0.atlas_rect.within(self.atlas_width(), self.atlas_height()),
            self.slot_of(a)->Some_0.atlas_rect.disjoint(self.slot_of(b)->Some_0.atlas_rect),
            self.slot_of(a)->Some_0.glyph_id == a,
    {
        lemma_find(self.residents(), a, 0);
        lemma_find(self.residents(), b, 0);
        let i = find(self.residents(), a, 0)->Some_0;
        let j = find(self.residents(), b, 0)->Some_0;
        lemma_sound_slots(self.packing(), self.atlas_width(), self.atlas_height(), i, j);
    }

    /// An empty cache over an atlas of `width` by `height` pixels, all zero.
    pub fn new(width: u32, height: u32) -> (c: Self)
        requires
            width * height <= usize::MAX,
        ensures
            c.wf(),
            c.atlas_width() == width,
            c.atlas_height() == height,
            c.residents().len() == 0,
            c.shelves().len() == 0,
            c.queued().len() == 0,
            c.pass() == 0,
            c.pixels() == Seq::new((width * height) as nat, |i: int| 0u8),
    {
        GlyphAtlasCache {
            grid: PixelGrid::new(width, height),
            slots: LruSlots::new(),
            shelves: Vec::new(),
            queue: Vec::new(),
            pass: 0,
        }
    }

    /// The width and the height of the atlas.
    pub fn dimensions(&self) -> (d: (u32, u32))
        ensures
            d == (self.atlas_width(), self.atlas_height()),
    {
        self.grid.dimensions()
    }

    /// All the coverage bytes of the atlas, row by row.
    pub fn read_full_buffer(&self) -> (b: &[u8])
        ensures
            b@ == self.pixels(),
    {
        self.grid.as_bytes()
    }

    /// Mark a glyph as needed by the next pass. A glyph that is queued
    /// already, or whose bitmap is empty, changes nothing.
    pub fn queue(&mut self, glyph_id: GlyphId, screen_rect: ScreenRect)
        requires
            old(self).wf(),
        ensures
            final(self).wf(),
            final(self).atlas_width() == old(self).atlas_width(),
            final(self).atlas_height() == old(self).atlas_height(),
            final(self).pixels() == old(self).pixels(),
            final(self).residents() == old(self).residents(),
            final(self).shelves() == old(self).shelves(),
            final(self).pass() == old(self).pass(),
            final(self).queued() == (if screen_rect.width == 0 || screen_rect.height == 0
                || is_queued(old(self).queued(), glyph_id) {
                old(self).queued()
            } else {
                old(self).queued().push(Queued { glyph_id, screen_rect })
            }),
    {
        if screen_rect.width == 0 || screen_rect.height == 0 {
            return ;
        }
        let mut i: usize = 0;
        while i < self.queue.len()
            invariant
                *self == *old(self),
                self.wf(),
                i <= self.queue@.len(),
                forall|j: int| 0 <= j < i ==> (#[trigger] self.queue@[j]).glyph_id != glyph_id,
            decreases self.queue@.len() - i,
        {
            if self.queue[i].glyph_id == glyph_id {
                return ;
            }
            i += 1;
        }
        self.queue.push(Queued { glyph_id, screen_rect });
    }

    /// Forget the glyphs that are queued.
    pub fn clear_queue(&mut self)
        requires
            old(self).wf(),
        ensures
            final(self).wf(),
            final(self).same_atlas(*old(self)),
            final(self).queued().len() == 0,
    {
        self.queue.clear();
    }

    /// The slot of a glyph, or `None` for a glyph that is not in the atlas:
    /// one that was never packed, or that has been evicted since.
    pub fn resolve(&self, glyph_id: GlyphId) -> (r: Option<AtlasSlot>)
        requires
            self.wf(),
        ensures
            r == self.slot_of(glyph_id),
    {
        match find_resident(&self.slots, glyph_id) {
            Some(i) => {
                proof {
                    lemma_find(self.slots@, glyph_id, 0);
                }
                Some(self.slots.get(i).slot)
            },
            None => None,
        }
    }

    /// Write the bitmap of a glyph into the atlas: `bytes` are the rows of
    /// the region at `offset` of size `size`, one after the other.
    pub fn write_region(&mut self, offset: (u32, u32), size: (u32, u32), bytes: &[u8])
        requires
            old(self).wf(),
            offset.0 + size.0 <= old(self).atlas_width(),
            offset.1 + size.1 <= old(self).atlas_height(),
        ensures
            final(self).wf(),
            final(self).atlas_width() == old(self).atlas_width(),
            final(self).atlas_height() == old(self).atlas_height(),
            final(self).residents() == old(self).residents(),
            final(self).shelves() == old(self).shelves(),
            final(self).queued() == old(self).queued(),
            final(self).pass() == old(self).pass(),
            final(self).pixels() == written(
                old(self).pixels(),
                old(self).atlas_width(),
                offset,
                size,
                bytes@,
            ),
            forall|px: int, py: int|
                0 <= px < old(self).atlas_width() && 0 <= py < old(self).atlas_height() ==> (
                #[trigger] final(self).pixel(px, py)) == (if in_region(offset, size, px, py)
                    && source_of(offset, size, px, py) < bytes@.len() {
                    bytes@[source_of(offset, size, px, py)]
                } else {
                    old(self).pixel(px, py)
                }),
    {
        self.grid.write_region(offset, size, bytes);
    }

    /// Give every queued glyph a slot, as far as there is room: the pass.
    /// Returns the slots that it made, in the order of the queue; their
    /// bitmaps are still to be written. Fails, and changes nothing, where a
    /// queued glyph without a slot is larger than the whole atlas.
    pub fn pack_queued(&mut self) -> (r: Result<Vec<AtlasSlot>, AtlasOverflow>)
        requires
            old(self).wf(),
        ensures
            final(self).wf(),
            final(self).atlas_width() == old(self).atlas_width(),
            final(self).atlas_height() == old(self).atlas_height(),
            final(self).pixels() == old(self).pixels(),
            forall|px: int, py: int| final(self).pixel(px, py) == old(self).pixel(px, py),
            r is Ok ==> forall|k: int|
                0 <= k < r->Ok_0@.len() ==> (#[trigger] r->Ok_0@[k]).atlas_rect.within(
                    old(self).atlas_width(),
                    old(self).atlas_height(),
                ),
            match first_too_large(
                old(self).residents(),
                old(self).queued(),
                old(self).atlas_width(),
                old(self).atlas_height(),
                0,
            ) {
                Some(i) => r == Err::<Vec<AtlasSlot>, AtlasOverflow>(
                    AtlasOverflow {
                        glyph_id: old(self).queued()[i].glyph_id,
                        width: old(self).queued()[i].screen_rect.width,
                        height: old(self).queued()[i].screen_rect.height,
                    },
                ) && final(self).residents() == old(self).residents() && final(self).shelves()
                    == old(self).shelves() && final(self).queued() == old(self).queued() && final(self).pass() == old(self).pass(),
                None => r is Ok && final(self).pass() == next_pass(old(self).pass()) && final(self).queued().len() == 0 && final(self).residents() == flushed(
                    old(self).packing(),
                    old(self).atlas_width(),
                    old(self).atlas_height(),
                    old(self).queued(),
                    next_pass(old(self).pass()),
                ).residents && final(self).shelves() == flushed(
                    old(self).packing(),
                    old(self).atlas_width(),
                    old(self).atlas_height(),
                    old(self).queued(),
                    next_pass(old(self).pass()),
                ).shelves && r->Ok_0@ == flushed(
                    old(self).packing(),
                    old(self).atlas_width(),
                    old(self).atlas_height(),
                    old(self).queued(),
                    next_pass(old(self).pass()),
                ).fresh,
            },
    {
        let ghost start = *self;
        let (atlas_width, atlas_height) = self.grid.dimensions();
        let mut i: usize = 0;
        while i < self.queue.len()
            invariant
                *self == start,
                self.wf(),
                i <= self.queue@.len(),
                atlas_width == self.grid.cols(),
                atlas_height == self.grid.rows(),
                first_too_large(self.slots@, self.queue@, atlas_width, atlas_height, 0)
                    == first_too_large(self.slots@, self.queue@, atlas_width, atlas_height, i as int),
            decreases self.queue@.len() - i,
        {
            let q = self.queue[i];
            if find_resident(&self.slots, q.glyph_id).is_none() && (q.screen_rect.width
                > atlas_width || q.screen_rect.height > atlas_height) {
                return Err(
                    AtlasOverflow {
                        glyph_id: q.glyph_id,
                        width: q.screen_rect.width,
                        height: q.screen_rect.height,
                    },
                );
            }
            i += 1;
        }
        let stamp: u64 = if self.pass == u64::MAX {
            0
        } else {
            self.pass + 1
        };
        self.pass = stamp;
        let ghost bare = Packing {
            residents: start.slots@,
            shelves: start.shelves@,
            fresh: Seq::empty(),
        };
        let mut k: usize = 0;
        while k < self.queue.len()
            invariant
                k <= self.queue@.len(),
                self.queue@ == start.queue@,
                self.grid == start.grid,
                self.pass == stamp,
                self.grid.wf(),
                self.slots.wf(),
                all_visible(self.queue@),
                atlas_width == self.grid.cols(),
                atlas_height == self.grid.rows(),
                sound(packing_of(self.slots, self.shelves, Seq::empty()), atlas_width, atlas_height),
                packing_of(self.slots, self.shelves, Seq::empty()) == touch_all(
                    bare,
                    self.queue@.take(k as int),
                    stamp,
                ),
            decreases self.queue@.len() - k,
        {
            let q = self.queue[k];
            proof {
                assert(self.queue@.take(k + 1).drop_last() =~= self.queue@.take(k as int));
                lemma_touch_sound(
                    packing_of(self.slots, self.shelves, Seq::empty()),
                    atlas_width,
                    atlas_height,
                    q,
                    stamp,
                );
            }
            touch_glyph(&mut self.slots, q, stamp);
            k += 1;
        }
        proof {
            assert(self.queue@.take(self.queue@.len() as int) =~= self.queue@);
        }
        let ghost touched = packing_of(self.slots, self.shelves, Seq::empty());
        let mut fresh: Vec<AtlasSlot> = Vec::new();
        let mut k: usize = 0;
        while k < self.queue.len()
            invariant
                k <= self.queue@.len(),
                self.queue@ == start.queue@,
                self.grid == start.grid,
                self.pass == stamp,
                self.grid.wf(),
                self.slots.wf(),
                all_visible(self.queue@),
                atlas_width == self.grid.cols(),
                atlas_height == self.grid.rows(),
                sound(packing_of(self.slots, self.shelves, fresh@), atlas_width, atlas_height),
                packing_of(self.slots, self.shelves, fresh@) == lodge_all(
                    touched,
                    atlas_width,
                    atlas_height,
                    self.queue@.take(k as int),
                    stamp,
                ),
            decreases self.queue@.len() - k,
        {
            let q = self.queue[k];
            proof {
                assert(self.queue@.take(k + 1).drop_last() =~= self.queue@.take(k as int));
                lemma_lodge_sound(
                    packing_of(self.slots, self.shelves, fresh@),
                    atlas_width,
                    atlas_height,
                    q,
                    stamp,
                );
            }
            lodge_glyph(
                &mut self.slots,
                &mut self.shelves,
                &mut fresh,
                atlas_width,
                atlas_height,
                q,
                stamp,
            );
            k += 1;
        }
        proof {
            assert(self.queue@.take(self.queue@.len() as int) =~= self.queue@);
        }
        self.queue.clear();
        proof {
            let done = packing_of(self.slots, self.shelves, fresh@);
            assert(done.residents == self.packing().residents);
            assert(done.shelves == self.packing().shelves);
            assert(sound(self.packing(), atlas_width, atlas_height));
            assert(sound(done, atlas_width, atlas_height));
            assert forall|k: int| 0 <= k < fresh@.len() implies (#[trigger] fresh@[k]).atlas_rect.within(
                start.grid.cols(),
                start.grid.rows(),
            ) by {
                assert(done.fresh[k] == fresh@[k]);
            }
        }
        Ok(fresh)
    }

    /// One pass: give every queued glyph a slot, as far as there is room, and
    /// have `rasterize` draw the bitmap of each new slot, which is written
    /// into the atlas at the slot. `rasterize` is called once for each new
    /// slot, with the glyph and the width and height of its bitmap. Fails,
    /// and changes nothing, where a queued glyph without a slot is larger
    /// than the whole atlas.
    pub fn flush<F: Fn(GlyphId, u32, u32) -> Vec<u8>>(&mut self, rasterize: F) -> (r: Result<
        (),
        AtlasOverflow,
    >)
        requires
            old(self).wf(),
            forall|id: GlyphId, width: u32, height: u32| rasterize.requires((id, width, height)),
        ensures
            final(self).wf(),
            match overflow_of(
                old(self).residents(),
                old(self).queued(),
                old(self).atlas_width(),
                old(self).atlas_height(),
            ) {
                Some(e) => r == Err::<(), AtlasOverflow>(e) && final(self).same_atlas(*old(self))
                    && final(self).queued() == old(self).queued(),
                None => r is Ok && final(self).passed(*old(self), old(self).queued(), rasterize),
            },
    {
        let pending = match self.pack_queued() {
            Ok(p) => p,
            Err(e) => {
                return Err(e);
            },
        };
        let ghost packed = *self;
        let ghost bitmaps: Seq<Vec<u8>> = Seq::empty();
        let mut k: usize = 0;
        while k < pending.len()
            invariant
                k <= pending@.len(),
                self.wf(),
                self.atlas_width() == packed.atlas_width(),
                self.atlas_height() == packed.atlas_height(),
                self.residents() == packed.residents(),
                self.shelves() == packed.shelves(),
                self.queued() == packed.queued(),
                self.pass() == packed.pass(),
                forall|id: GlyphId, width: u32, height: u32|
                    rasterize.requires((id, width, height)),
                forall|j: int|
                    0 <= j < pending@.len() ==> (#[trigger] pending@[j]).atlas_rect.within(
                        packed.atlas_width(),
                        packed.atlas_height(),
                    ),
                drawn_by(rasterize, pending@.take(k as int), bitmaps),
                self.pixels() == painted(
                    packed.pixels(),
                    packed.atlas_width(),
                    pending@.take(k as int),
                    bytes_of(bitmaps),
                ),
            decreases pending@.len() - k,
        {
            let slot = pending[k];
            let rect = slot.atlas_rect;
            let bytes = rasterize(slot.glyph_id, rect.width, rect.height);
            self.write_region((rect.x, rect.y), (rect.width, rect.height), bytes.as_slice());
            proof {
                let before = bitmaps;
                bitmaps = bitmaps.push(bytes);
                assert(pending@.take(k + 1).drop_last() =~= pending@.take(k as int));
                assert(bytes_of(bitmaps).drop_last() =~= bytes_of(before));
                assert(bytes_of(bitmaps).last() == bytes@);
                assert forall|j: int| 0 <= j < k + 1 implies rasterize.ensures(
                    (
                        (#[trigger] pending@.take(k + 1)[j]).glyph_id,
                        pending@.take(k + 1)[j].atlas_rect.width,
                        pending@.take(k + 1)[j].atlas_rect.height,
                    ),
                    bitmaps[j],
                ) by {
                    if j < k {
                        assert(pending@.take(k as int)[j] == pending@.take(k + 1)[j]);
                        assert(bitmaps[j] == before[j]);
                    }
                }
            }
            k += 1;
        }
        proof {
            assert(pending@.take(pending@.len() as int) =~= pending@);
        }
        Ok(())
    }
}

} // verus!
