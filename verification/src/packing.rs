//! How glyphs are given room in the atlas: the rules, as functions on plain
//! sequences, and what they keep true.
//!
//! The atlas is cut into shelves, horizontal bands stacked from the top. A
//! glyph goes on the first shelf that has room for it, else on a new shelf
//! below the last. When there is room nowhere, the least recently used glyph
//! that the current pass does not use is evicted, again and again, until
//! there is room or nothing is left to evict. A shelf that loses its last
//! glyph is empty again, and empty shelves at the bottom are given up.
use vstd::prelude::*;
use crate::font::GlyphId;
use crate::geometry::{AtlasRect, ScreenRect};

verus! {

/// What the atlas holds of one glyph: where its bitmap lies in the atlas, and
/// the screen rectangle it was last queued with.
#[derive(Debug, Copy, Clone, PartialEq, Eq, Structural)]
pub struct AtlasSlot {
    /// The glyph
    pub glyph_id: GlyphId,
    /// Where its bitmap lies, in atlas pixels
    pub atlas_rect: AtlasRect,
    /// Where it is drawn, in layout space
    pub screen_rect: ScreenRect,
}

/// A glyph that the next pass needs.
#[derive(Debug, Copy, Clone, PartialEq, Eq, Structural)]
pub struct Queued {
    /// The glyph
    pub glyph_id: GlyphId,
    /// Where it is drawn; its size is the size of the bitmap
    pub screen_rect: ScreenRect,
}

/// A horizontal band of the atlas.
#[derive(Debug, Copy, Clone, PartialEq, Eq, Structural)]
pub struct Shelf {
    /// Top edge
    pub y: u32,
    /// Height
    pub height: u32,
    /// How much of its width is taken, from the left
    pub used: u32,
}

/// A slot together with the shelf it stands on and the pass that used it
/// last.
#[derive(Debug, Copy, Clone, PartialEq, Eq, Structural)]
pub struct Resident {
    /// The slot
    pub slot: AtlasSlot,
    /// The index of its shelf
    pub shelf: usize,
    /// The number of the pass that used it last
    pub stamp: u64,
}

/// The glyphs in the atlas, least recently used first, and the shelves.
pub struct Packing {
    /// The glyphs in the atlas, least recently used first
    pub residents: Seq<Resident>,
    /// The shelves, from the top
    pub shelves: Seq<Shelf>,
    /// The slots made since the pass began, in the order in which they were made
    pub fresh: Seq<AtlasSlot>,
}

/// The place of glyph `id` among the residents from place `from` on.
pub open spec fn find(residents: Seq<Resident>, id: GlyphId, from: int) -> Option<int>
    decreases residents.len() - from,
{
    if from < 0 || from >= residents.len() {
        None
    } else if residents[from].slot.glyph_id == id {
        Some(from)
    } else {
        find(residents, id, from + 1)
    }
}

/// The glyph has a slot.
pub open spec fn holds(residents: Seq<Resident>, id: GlyphId) -> bool {
    find(residents, id, 0) is Some
}

/// What `find` finds is the first resident with that glyph, and it finds
/// nothing only where there is none.
pub proof fn lemma_find(residents: Seq<Resident>, id: GlyphId, from: int)
    requires
        0 <= from,
    ensures
        match find(residents, id, from) {
            Some(i) => from <= i < residents.len() && residents[i].slot.glyph_id == id
                && forall|j: int| from <= j < i ==> (#[trigger] residents[j]).slot.glyph_id != id,
            None => forall|j: int|
                from <= j < residents.len() ==> (#[trigger] residents[j]).slot.glyph_id != id,
        },
    decreases residents.len() - from,
{
    if from < residents.len() && residents[from].slot.glyph_id != id {
        lemma_find(residents, id, from + 1);
    }
}

/// A glyph of `width` by `height` has room on the shelf.
pub open spec fn fits_on(shelf: Shelf, atlas_width: u32, width: u32, height: u32) -> bool {
    shelf.used + width <= atlas_width && height <= shelf.height
}

/// The first shelf from `from` on that has room.
pub open spec fn first_fit(
    shelves: Seq<Shelf>,
    atlas_width: u32,
    width: u32,
    height: u32,
    from: int,
) -> Option<int>
    decreases shelves.len() - from,
{
    if from < 0 || from >= shelves.len() {
        None
    } else if fits_on(shelves[from], atlas_width, width, height) {
        Some(from)
    } else {
        first_fit(shelves, atlas_width, width, height, from + 1)
    }
}

/// What `first_fit` finds is a shelf with room.
pub proof fn lemma_first_fit(
    shelves: Seq<Shelf>,
    atlas_width: u32,
    width: u32,
    height: u32,
    from: int,
)
    requires
        0 <= from,
    ensures
        first_fit(shelves, atlas_width, width, height, from) matches Some(i) ==> from <= i
            < shelves.len() && fits_on(shelves[i], atlas_width, width, height),
    decreases shelves.len() - from,
{
    if from < shelves.len() && !fits_on(shelves[from], atlas_width, width, height) {
        lemma_first_fit(shelves, atlas_width, width, height, from + 1);
    }
}

/// Where the lowest shelf ends.
pub open spec fn bottom(shelves: Seq<Shelf>) -> int {
    if shelves.len() == 0 {
        0
    } else {
        shelves.last().y + shelves.last().height
    }
}

/// There is room for the glyph: on a shelf, or for a new shelf.
pub open spec fn can_place(
    p: Packing,
    atlas_width: u32,
    atlas_height: u32,
    width: u32,
    height: u32,
) -> bool {
    first_fit(p.shelves, atlas_width, width, height, 0) is Some || (width <= atlas_width && bottom(
        p.shelves,
    ) + height <= atlas_height)
}

/// The resident that `q` becomes where there is room.
pub open spec fn seat(p: Packing, atlas_width: u32, q: Queued, stamp: u64) -> Resident {
    match first_fit(p.shelves, atlas_width, q.screen_rect.width, q.screen_rect.height, 0) {
        Some(i) => Resident {
            slot: AtlasSlot {
                glyph_id: q.glyph_id,
                atlas_rect: AtlasRect {
                    x: p.shelves[i].used,
                    y: p.shelves[i].y,
                    width: q.screen_rect.width,
                    height: q.screen_rect.height,
                },
                screen_rect: q.screen_rect,
            },
            shelf: i as usize,
            stamp,
        },
        None => Resident {
            slot: AtlasSlot {
                glyph_id: q.glyph_id,
                atlas_rect: AtlasRect {
                    x: 0,
                    y: bottom(p.shelves) as u32,
                    width: q.screen_rect.width,
                    height: q.screen_rect.height,
                },
                screen_rect: q.screen_rect,
            },
            shelf: p.shelves.len() as usize,
            stamp,
        },
    }
}

/// The glyph placed: on the first shelf with room, at the end of what is
/// taken there; else at the left of a new shelf of its own height.
pub open spec fn place(p: Packing, atlas_width: u32, q: Queued, stamp: u64) -> Packing {
    let r = seat(p, atlas_width, q, stamp);
    Packing {
        residents: p.residents.push(r),
        shelves: match first_fit(
            p.shelves,
            atlas_width,
            q.screen_rect.width,
            q.screen_rect.height,
            0,
        ) {
            Some(i) => p.shelves.update(
                i,
                Shelf {
                    y: p.shelves[i].y,
                    height: p.shelves[i].height,
                    used: (p.shelves[i].used + q.screen_rect.width) as u32,
                },
            ),
            None => p.shelves.push(
                Shelf {
                    y: bottom(p.shelves) as u32,
                    height: q.screen_rect.height,
                    used: q.screen_rect.width,
                },
            ),
        },
        fresh: p.fresh.push(r.slot),
    }
}

/// A resident from place `from` on stands on shelf `shelf`.
pub open spec fn on_shelf(residents: Seq<Resident>, shelf: usize, from: int) -> bool
    decreases residents.len() - from,
{
    if from < 0 || from >= residents.len() {
        false
    } else if residents[from].shelf == shelf {
        true
    } else {
        on_shelf(residents, shelf, from + 1)
    }
}

/// `on_shelf` holds exactly where some resident stands on the shelf.
pub proof fn lemma_on_shelf(residents: Seq<Resident>, shelf: usize, from: int)
    requires
        0 <= from,
    ensures
        on_shelf(residents, shelf, from) <==> exists|j: int|
            from <= j < residents.len() && (#[trigger] residents[j]).shelf == shelf,
    decreases residents.len() - from,
{
    if from < residents.len() {
        if residents[from].shelf != shelf {
            lemma_on_shelf(residents, shelf, from + 1);
            if on_shelf(residents, shelf, from) {
                let j = choose|j: int|
                    from + 1 <= j < residents.len() && (#[trigger] residents[j]).shelf == shelf;
                assert(from <= j < residents.len() && residents[j].shelf == shelf);
            }
        } else {
            assert(from <= from < residents.len() && residents[from].shelf == shelf);
        }
    }
}

/// The shelves without the empty ones at the bottom.
pub open spec fn trim(shelves: Seq<Shelf>) -> Seq<Shelf>
    decreases shelves.len(),
{
    if shelves.len() > 0 && shelves.last().used == 0 {
        trim(shelves.drop_last())
    } else {
        shelves
    }
}

/// Trimming keeps the shelves from the top down to the lowest one in use.
pub proof fn lemma_trim(shelves: Seq<Shelf>)
    ensures
        trim(shelves).len() <= shelves.len(),
        trim(shelves) == shelves.take(trim(shelves).len() as int),
        forall|i: int|
            0 <= i < shelves.len() && (#[trigger] shelves[i]).used > 0 ==> i < trim(shelves).len(),
        trim(shelves).len() > 0 ==> trim(shelves).last().used > 0,
    decreases shelves.len(),
{
    if shelves.len() > 0 && shelves.last().used == 0 {
        lemma_trim(shelves.drop_last());
        let t = trim(shelves.drop_last());
        assert(shelves.drop_last().take(t.len() as int) =~= shelves.take(t.len() as int));
        assert forall|i: int| 0 <= i < shelves.len() && (#[trigger] shelves[i]).used > 0 implies i
            < t.len() by {
            assert(shelves.drop_last()[i] == shelves[i]);
        }
    } else {
        assert(shelves.take(shelves.len() as int) =~= shelves);
    }
}

/// The shelves after the resident `gone` has left: its shelf is empty again
/// if no other resident stands on it, and empty shelves at the bottom are
/// given up.
pub open spec fn vacate(shelves: Seq<Shelf>, rest: Seq<Resident>, gone: Resident) -> Seq<Shelf> {
    if on_shelf(rest, gone.shelf, 0) || gone.shelf >= shelves.len() {
        trim(shelves)
    } else {
        trim(
            shelves.update(
                gone.shelf as int,
                Shelf {
                    y: shelves[gone.shelf as int].y,
                    height: shelves[gone.shelf as int].height,
                    used: 0,
                },
            ),
        )
    }
}

/// The least recently used glyph evicted.
pub open spec fn evict(p: Packing) -> Packing {
    Packing {
        residents: p.residents.drop_first(),
        shelves: vacate(p.shelves, p.residents.drop_first(), p.residents[0]),
        fresh: p.fresh,
    }
}

/// Glyphs are evicted, least recently used first, until there is room for a
/// glyph of `width` by `height`, or until the least recently used glyph is
/// one that pass `stamp` uses, or until none is left.
pub open spec fn make_room(
    p: Packing,
    atlas_width: u32,
    atlas_height: u32,
    width: u32,
    height: u32,
    stamp: u64,
) -> Packing
    decreases p.residents.len(),
{
    if can_place(p, atlas_width, atlas_height, width, height) || p.residents.len() == 0
        || p.residents[0].stamp == stamp {
        p
    } else {
        make_room(evict(p), atlas_width, atlas_height, width, height, stamp)
    }
}

/// A queued glyph that has a slot is used again: its slot becomes the most
/// recently used, takes the stamp of the pass and the new screen rectangle.
pub open spec fn touch(p: Packing, q: Queued, stamp: u64) -> Packing {
    match find(p.residents, q.glyph_id, 0) {
        Some(i) => Packing {
            residents: p.residents.remove(i).push(
                Resident {
                    slot: AtlasSlot {
                        glyph_id: q.glyph_id,
                        atlas_rect: p.residents[i].slot.atlas_rect,
                        screen_rect: q.screen_rect,
                    },
                    shelf: p.residents[i].shelf,
                    stamp,
                },
            ),
            shelves: p.shelves,
            fresh: p.fresh,
        },
        None => p,
    }
}

/// A queued glyph without a slot is given one: room is made, and where there
/// is room the glyph is placed. Where there is none the glyph stays out.
pub open spec fn lodge(
    p: Packing,
    atlas_width: u32,
    atlas_height: u32,
    q: Queued,
    stamp: u64,
) -> Packing {
    if holds(p.residents, q.glyph_id) {
        p
    } else {
        let roomy = make_room(
            p,
            atlas_width,
            atlas_height,
            q.screen_rect.width,
            q.screen_rect.height,
            stamp,
        );
        if can_place(roomy, atlas_width, atlas_height, q.screen_rect.width, q.screen_rect.height) {
            place(roomy, atlas_width, q, stamp)
        } else {
            roomy
        }
    }
}

/// Every queued glyph that has a slot, used again, in the order of the queue.
pub open spec fn touch_all(p: Packing, queue: Seq<Queued>, stamp: u64) -> Packing
    decreases queue.len(),
{
    if queue.len() == 0 {
        p
    } else {
        touch(touch_all(p, queue.drop_last(), stamp), queue.last(), stamp)
    }
}

/// Every queued glyph without a slot, given one where there is room, in the
/// order of the queue.
pub open spec fn lodge_all(
    p: Packing,
    atlas_width: u32,
    atlas_height: u32,
    queue: Seq<Queued>,
    stamp: u64,
) -> Packing
    decreases queue.len(),
{
    if queue.len() == 0 {
        p
    } else {
        lodge(
            lodge_all(p, atlas_width, atlas_height, queue.drop_last(), stamp),
            atlas_width,
            atlas_height,
            queue.last(),
            stamp,
        )
    }
}

/// The bitmap of the glyph is larger than the whole atlas.
pub open spec fn too_large(q: Queued, atlas_width: u32, atlas_height: u32) -> bool {
    q.screen_rect.width > atlas_width || q.screen_rect.height > atlas_height
}

/// The first queued glyph from place `from` on that has no slot and is
/// larger than the whole atlas.
pub open spec fn first_too_large(
    residents: Seq<Resident>,
    queue: Seq<Queued>,
    atlas_width: u32,
    atlas_height: u32,
    from: int,
) -> Option<int>
    decreases queue.len() - from,
{
    if from < 0 || from >= queue.len() {
        None
    } else if !holds(residents, queue[from].glyph_id) && too_large(
        queue[from],
        atlas_width,
        atlas_height,
    ) {
        Some(from)
    } else {
        first_too_large(residents, queue, atlas_width, atlas_height, from + 1)
    }
}

/// What a pass makes of the atlas: first every queued glyph that has a slot
/// is used again, so that none of them is evicted; then the others are given
/// slots.
pub open spec fn flushed(
    p: Packing,
    atlas_width: u32,
    atlas_height: u32,
    queue: Seq<Queued>,
    stamp: u64,
) -> Packing {
    lodge_all(
        touch_all(
            Packing { residents: p.residents, shelves: p.shelves, fresh: Seq::empty() },
            queue,
            stamp,
        ),
        atlas_width,
        atlas_height,
        queue,
        stamp,
    )
}

/// The shelf lies inside the atlas and has a height.
pub open spec fn shelf_ok(shelf: Shelf, atlas_width: u32, atlas_height: u32) -> bool {
    shelf.used <= atlas_width && shelf.y + shelf.height <= atlas_height && shelf.height > 0
}

/// The resident stands on its shelf, within what is taken of it, and its
/// bitmap is not empty.
pub open spec fn seated(r: Resident, shelves: Seq<Shelf>) -> bool {
    &&& r.shelf < shelves.len()
    &&& r.slot.atlas_rect.y == shelves[r.shelf as int].y
    &&& r.slot.atlas_rect.height <= shelves[r.shelf as int].height
    &&& r.slot.atlas_rect.x + r.slot.atlas_rect.width <= shelves[r.shelf as int].used
    &&& r.slot.atlas_rect.width > 0
    &&& r.slot.atlas_rect.height > 0
}

/// Two residents are different glyphs, and where they share a shelf they
/// stand side by side.
pub open spec fn apart(a: Resident, b: Resident) -> bool {
    &&& a.slot.glyph_id != b.slot.glyph_id
    &&& a.shelf == b.shelf ==> a.slot.atlas_rect.right() <= b.slot.atlas_rect.x
        || b.slot.atlas_rect.right() <= a.slot.atlas_rect.x
}

/// What every packing keeps true: the shelves lie inside the atlas, one
/// below the other; each resident stands on its shelf; no glyph has two
/// slots, and no two slots overlap; the slots made in this pass lie inside
/// the atlas; the lowest shelf is in use, and a shelf of which some width is
/// taken has a resident.
pub open spec fn sound(p: Packing, atlas_width: u32, atlas_height: u32) -> bool {
    &&& forall|i: int|
        0 <= i < p.shelves.len() ==> shelf_ok(#[trigger] p.shelves[i], atlas_width, atlas_height)
            && p.shelves[i].y >= i
    &&& forall|i: int, j: int|
        0 <= i < j < p.shelves.len() ==> (#[trigger] p.shelves[i]).y + p.shelves[i].height <= (
        #[trigger] p.shelves[j]).y
    &&& forall|i: int| 0 <= i < p.residents.len() ==> seated(#[trigger] p.residents[i], p.shelves)
    &&& forall|i: int, j: int|
        0 <= i < j < p.residents.len() ==> apart(#[trigger] p.residents[i], #[trigger] p.residents[j])
    &&& forall|i: int|
        0 <= i < p.fresh.len() ==> (#[trigger] p.fresh[i]).atlas_rect.within(
            atlas_width,
            atlas_height,
        )
    &&& p.shelves.len() > 0 ==> p.shelves.last().used > 0
    &&& forall|s: int|
        0 <= s < p.shelves.len() && (#[trigger] p.shelves[s]).used > 0 ==> on_shelf(
            p.residents,
            s as usize,
            0,
        )
}

/// In a sound packing every slot lies inside the atlas, and two slots are
/// slots of different glyphs and share no pixel.
pub proof fn lemma_sound_slots(p: Packing, atlas_width: u32, atlas_height: u32, i: int, j: int)
    requires
        sound(p, atlas_width, atlas_height),
        0 <= i < p.residents.len(),
        0 <= j < p.residents.len(),
        i != j,
    ensures
        p.residents[i].slot.atlas_rect.within(atlas_width, atlas_height),
        p.residents[i].slot.glyph_id != p.residents[j].slot.glyph_id,
        p.residents[i].slot.atlas_rect.disjoint(p.residents[j].slot.atlas_rect),
{
    let a = p.residents[i];
    let b = p.residents[j];
    assert(seated(a, p.shelves));
    assert(seated(b, p.shelves));
    assert(shelf_ok(p.shelves[a.shelf as int], atlas_width, atlas_height));
    if i < j {
        assert(apart(p.residents[i], p.residents[j]));
    } else {
        assert(apart(p.residents[j], p.residents[i]));
    }
    if a.shelf < b.shelf {
        assert(p.shelves[a.shelf as int].y + p.shelves[a.shelf as int].height
            <= p.shelves[b.shelf as int].y);
    } else if b.shelf < a.shelf {
        assert(p.shelves[b.shelf as int].y + p.shelves[b.shelf as int].height
            <= p.shelves[a.shelf as int].y);
    }
}

/// Placing a glyph that has no slot yet, where there is room, keeps the
/// packing sound.
pub proof fn lemma_place_sound(
    p: Packing,
    atlas_width: u32,
    atlas_height: u32,
    q: Queued,
    stamp: u64,
)
    requires
        sound(p, atlas_width, atlas_height),
        can_place(p, atlas_width, atlas_height, q.screen_rect.width, q.screen_rect.height),
        !holds(p.residents, q.glyph_id),
        q.screen_rect.width > 0,
        q.screen_rect.height > 0,
    ensures
        sound(place(p, atlas_width, q, stamp), atlas_width, atlas_height),
        bottom(p.shelves) <= atlas_height,
        p.shelves.len() <= atlas_height,
{
    let w = q.screen_rect.width;
    let h = q.screen_rect.height;
    let after = place(p, atlas_width, q, stamp);
    let r = seat(p, atlas_width, q, stamp);
    lemma_find(p.residents, q.glyph_id, 0);
    lemma_first_fit(p.shelves, atlas_width, w, h, 0);
    if p.shelves.len() > 0 {
        assert(shelf_ok(p.shelves.last(), atlas_width, atlas_height));
    }
    match first_fit(p.shelves, atlas_width, w, h, 0) {
        Some(s) => {
            assert(shelf_ok(p.shelves[s], atlas_width, atlas_height));
            assert forall|i: int| 0 <= i < after.shelves.len() implies shelf_ok(
                #[trigger] after.shelves[i],
                atlas_width,
                atlas_height,
            ) && after.shelves[i].y >= i by {
                assert(shelf_ok(p.shelves[i], atlas_width, atlas_height));
            }
            assert forall|i: int, j: int| 0 <= i < j < after.shelves.len() implies (
            #[trigger] after.shelves[i]).y + after.shelves[i].height <= (
            #[trigger] after.shelves[j]).y by {
                assert(p.shelves[i].y + p.shelves[i].height <= p.shelves[j].y);
            }
            assert forall|i: int| 0 <= i < after.residents.len() implies seated(
                #[trigger] after.residents[i],
                after.shelves,
            ) by {
                if i < p.residents.len() {
                    assert(seated(p.residents[i], p.shelves));
                }
            }
            assert forall|i: int, j: int| 0 <= i < j < after.residents.len() implies apart(
                #[trigger] after.residents[i],
                #[trigger] after.residents[j],
            ) by {
                if j < p.residents.len() {
                    assert(apart(p.residents[i], p.residents[j]));
                } else {
                    assert(seated(p.residents[i], p.shelves));
                    assert(p.residents[i].slot.glyph_id != q.glyph_id);
                }
            }
        },
        None => {
            assert forall|i: int| 0 <= i < after.shelves.len() implies shelf_ok(
                #[trigger] after.shelves[i],
                atlas_width,
                atlas_height,
            ) && after.shelves[i].y >= i by {
                if i < p.shelves.len() {
                    assert(shelf_ok(p.shelves[i], atlas_width, atlas_height));
                }
            }
            assert forall|i: int, j: int| 0 <= i < j < after.shelves.len() implies (
            #[trigger] after.shelves[i]).y + after.shelves[i].height <= (
            #[trigger] after.shelves[j]).y by {
                if j < p.shelves.len() {
                    assert(p.shelves[i].y + p.shelves[i].height <= p.shelves[j].y);
                } else if i < p.shelves.len() - 1 {
                    assert(p.shelves[i].y + p.shelves[i].height <= p.shelves[p.shelves.len()
                        - 1].y);
                }
            }
            assert forall|i: int| 0 <= i < after.residents.len() implies seated(
                #[trigger] after.residents[i],
                after.shelves,
            ) by {
                if i < p.residents.len() {
                    assert(seated(p.residents[i], p.shelves));
                }
            }
            assert forall|i: int, j: int| 0 <= i < j < after.residents.len() implies apart(
                #[trigger] after.residents[i],
                #[trigger] after.residents[j],
            ) by {
                if j < p.residents.len() {
                    assert(apart(p.residents[i], p.residents[j]));
                } else {
                    assert(seated(p.residents[i], p.shelves));
                    assert(p.residents[i].slot.glyph_id != q.glyph_id);
                }
            }
        },
    }
    let target = r.shelf as int;
    assert(after.residents[p.residents.len() as int] == r);
    assert forall|s: int|
        0 <= s < after.shelves.len() && (#[trigger] after.shelves[s]).used > 0 implies on_shelf(
        after.residents,
        s as usize,
        0,
    ) by {
        lemma_on_shelf(after.residents, s as usize, 0);
        if s == target {
            assert(after.residents[p.residents.len() as int].shelf == s as usize);
        } else {
            assert(p.shelves[s].used > 0);
            lemma_on_shelf(p.residents, s as usize, 0);
            let j = choose|j: int|
                0 <= j < p.residents.len() && (#[trigger] p.residents[j]).shelf == s as usize;
            assert(after.residents[j] == p.residents[j]);
        }
    }
}

/// Evicting the least recently used glyph keeps the packing sound.
pub proof fn lemma_evict_sound(p: Packing, atlas_width: u32, atlas_height: u32)
    requires
        sound(p, atlas_width, atlas_height),
        p.residents.len() > 0,
    ensures
        sound(evict(p), atlas_width, atlas_height),
{
    let gone = p.residents[0];
    let rest = p.residents.drop_first();
    assert(seated(gone, p.shelves));
    let cleared = if on_shelf(rest, gone.shelf, 0) {
        p.shelves
    } else {
        p.shelves.update(
            gone.shelf as int,
            Shelf {
                y: p.shelves[gone.shelf as int].y,
                height: p.shelves[gone.shelf as int].height,
                used: 0,
            },
        )
    };
    let after = evict(p);
    assert(after.shelves == trim(cleared));
    lemma_trim(cleared);
    lemma_on_shelf(rest, gone.shelf, 0);
    assert forall|i: int| 0 <= i < rest.len() implies seated(#[trigger] rest[i], cleared) by {
        assert(rest[i] == p.residents[i + 1]);
        assert(seated(p.residents[i + 1], p.shelves));
    }
    assert forall|i: int| 0 <= i < after.shelves.len() implies shelf_ok(
        #[trigger] after.shelves[i],
        atlas_width,
        atlas_height,
    ) && after.shelves[i].y >= i by {
        assert(after.shelves[i] == cleared[i]);
        assert(shelf_ok(p.shelves[i], atlas_width, atlas_height));
    }
    assert forall|i: int, j: int| 0 <= i < j < after.shelves.len() implies (
    #[trigger] after.shelves[i]).y + after.shelves[i].height <= (#[trigger] after.shelves[j]).y by {
        assert(after.shelves[i] == cleared[i]);
        assert(after.shelves[j] == cleared[j]);
        assert(p.shelves[i].y + p.shelves[i].height <= p.shelves[j].y);
    }
    assert forall|i: int| 0 <= i < after.residents.len() implies seated(
        #[trigger] after.residents[i],
        after.shelves,
    ) by {
        assert(seated(rest[i], cleared));
        assert(cleared[rest[i].shelf as int].used > 0);
    }
    assert forall|i: int, j: int| 0 <= i < j < after.residents.len() implies apart(
        #[trigger] after.residents[i],
        #[trigger] after.residents[j],
    ) by {
        assert(apart(p.residents[i + 1], p.residents[j + 1]));
    }
    assert forall|s: int|
        0 <= s < after.shelves.len() && (#[trigger] after.shelves[s]).used > 0 implies on_shelf(
        after.residents,
        s as usize,
        0,
    ) by {
        assert(after.shelves[s] == cleared[s]);
        assert(p.shelves[s].used > 0);
        lemma_on_shelf(p.residents, s as usize, 0);
        lemma_on_shelf(rest, s as usize, 0);
        let j = choose|j: int|
            0 <= j < p.residents.len() && (#[trigger] p.residents[j]).shelf == s as usize;
        if j > 0 {
            assert(rest[j - 1] == p.residents[j]);
        }
    }
}

/// Making room keeps the packing sound.
pub proof fn lemma_make_room_sound(
    p: Packing,
    atlas_width: u32,
    atlas_height: u32,
    width: u32,
    height: u32,
    stamp: u64,
)
    requires
        sound(p, atlas_width, atlas_height),
    ensures
        sound(
            make_room(p, atlas_width, atlas_height, width, height, stamp),
            atlas_width,
            atlas_height,
        ),
    decreases p.residents.len(),
{
    if !(can_place(p, atlas_width, atlas_height, width, height) || p.residents.len() == 0
        || p.residents[0].stamp == stamp) {
        lemma_evict_sound(p, atlas_width, atlas_height);
        lemma_make_room_sound(evict(p), atlas_width, atlas_height, width, height, stamp);
    }
}

/// Using a glyph again keeps the packing sound.
pub proof fn lemma_touch_sound(
    p: Packing,
    atlas_width: u32,
    atlas_height: u32,
    q: Queued,
    stamp: u64,
)
    requires
        sound(p, atlas_width, atlas_height),
    ensures
        sound(touch(p, q, stamp), atlas_width, atlas_height),
{
    lemma_find(p.residents, q.glyph_id, 0);
    match find(p.residents, q.glyph_id, 0) {
        Some(k) => {
            let after = touch(p, q, stamp);
            let n = p.residents.len() as int;
            assert forall|i: int| 0 <= i < n implies (#[trigger] after.residents[i]).shelf == (if i
                < k {
                p.residents[i]
            } else if i < n - 1 {
                p.residents[i + 1]
            } else {
                p.residents[k]
            }).shelf && after.residents[i].slot.atlas_rect == (if i < k {
                p.residents[i]
            } else if i < n - 1 {
                p.residents[i + 1]
            } else {
                p.residents[k]
            }).slot.atlas_rect && after.residents[i].slot.glyph_id == (if i < k {
                p.residents[i]
            } else if i < n - 1 {
                p.residents[i + 1]
            } else {
                p.residents[k]
            }).slot.glyph_id by {}
            assert forall|i: int| 0 <= i < after.residents.len() implies seated(
                #[trigger] after.residents[i],
                after.shelves,
            ) by {
                let o = if i < k {
                    i
                } else if i < n - 1 {
                    i + 1
                } else {
                    k
                };
                assert(seated(p.residents[o], p.shelves));
            }
            assert forall|i: int, j: int| 0 <= i < j < after.residents.len() implies apart(
                #[trigger] after.residents[i],
                #[trigger] after.residents[j],
            ) by {
                let oi = if i < k {
                    i
                } else if i < n - 1 {
                    i + 1
                } else {
                    k
                };
                let oj = if j < k {
                    j
                } else if j < n - 1 {
                    j + 1
                } else {
                    k
                };
                if oi < oj {
                    assert(apart(p.residents[oi], p.residents[oj]));
                } else {
                    assert(apart(p.residents[oj], p.residents[oi]));
                }
            }
            assert forall|s: int|
                0 <= s < after.shelves.len() && (#[trigger] after.shelves[s]).used > 0 implies on_shelf(
                after.residents,
                s as usize,
                0,
            ) by {
                lemma_on_shelf(p.residents, s as usize, 0);
                lemma_on_shelf(after.residents, s as usize, 0);
                let j = choose|j: int|
                    0 <= j < p.residents.len() && (#[trigger] p.residents[j]).shelf == s as usize;
                let t = if j < k {
                    j
                } else if j == k {
                    n - 1
                } else {
                    j - 1
                };
                assert(after.residents[t].shelf == s as usize);
            }
        },
        None => {},
    }
}

/// Giving a queued glyph a slot keeps the packing sound.
pub proof fn lemma_lodge_sound(
    p: Packing,
    atlas_width: u32,
    atlas_height: u32,
    q: Queued,
    stamp: u64,
)
    requires
        sound(p, atlas_width, atlas_height),
        q.screen_rect.width > 0,
        q.screen_rect.height > 0,
    ensures
        sound(lodge(p, atlas_width, atlas_height, q, stamp), atlas_width, atlas_height),
{
    if !holds(p.residents, q.glyph_id) {
        let w = q.screen_rect.width;
        let h = q.screen_rect.height;
        lemma_make_room_sound(p, atlas_width, atlas_height, w, h, stamp);
        lemma_make_room_keeps_out(p, atlas_width, atlas_height, w, h, stamp, q.glyph_id);
        let roomy = make_room(p, atlas_width, atlas_height, w, h, stamp);
        if can_place(roomy, atlas_width, atlas_height, w, h) {
            lemma_place_sound(roomy, atlas_width, atlas_height, q, stamp);
        }
    }
}

/// Making room gives no glyph a slot.
pub proof fn lemma_make_room_keeps_out(
    p: Packing,
    atlas_width: u32,
    atlas_height: u32,
    width: u32,
    height: u32,
    stamp: u64,
    id: GlyphId,
)
    requires
        !holds(p.residents, id),
    ensures
        !holds(make_room(p, atlas_width, atlas_height, width, height, stamp).residents, id),
    decreases p.residents.len(),
{
    if !(can_place(p, atlas_width, atlas_height, width, height) || p.residents.len() == 0
        || p.residents[0].stamp == stamp) {
        lemma_find(p.residents, id, 0);
        lemma_find(evict(p).residents, id, 0);
        if holds(evict(p).residents, id) {
            let i = find(evict(p).residents, id, 0)->Some_0;
            assert(evict(p).residents[i] == p.residents[i + 1]);
        }
        lemma_make_room_keeps_out(evict(p), atlas_width, atlas_height, width, height, stamp, id);
    }
}

/// Every glyph of the queue has a bitmap that is not empty.
pub open spec fn all_visible(queue: Seq<Queued>) -> bool {
    forall|i: int|
        0 <= i < queue.len() ==> (#[trigger] queue[i]).screen_rect.width > 0
            && queue[i].screen_rect.height > 0
}

/// Using the queued glyphs again keeps the packing sound.
pub proof fn lemma_touch_all_sound(
    p: Packing,
    atlas_width: u32,
    atlas_height: u32,
    queue: Seq<Queued>,
    stamp: u64,
)
    requires
        sound(p, atlas_width, atlas_height),
    ensures
        sound(touch_all(p, queue, stamp), atlas_width, atlas_height),
    decreases queue.len(),
{
    if queue.len() > 0 {
        lemma_touch_all_sound(p, atlas_width, atlas_height, queue.drop_last(), stamp);
        lemma_touch_sound(
            touch_all(p, queue.drop_last(), stamp),
            atlas_width,
            atlas_height,
            queue.last(),
            stamp,
        );
    }
}

/// Giving the queued glyphs slots keeps the packing sound.
pub proof fn lemma_lodge_all_sound(
    p: Packing,
    atlas_width: u32,
    atlas_height: u32,
    queue: Seq<Queued>,
    stamp: u64,
)
    requires
        sound(p, atlas_width, atlas_height),
        all_visible(queue),
    ensures
        sound(lodge_all(p, atlas_width, atlas_height, queue, stamp), atlas_width, atlas_height),
    decreases queue.len(),
{
    if queue.len() > 0 {
        assert(all_visible(queue.drop_last())) by {
            assert forall|i: int| 0 <= i < queue.drop_last().len() implies (
            #[trigger] queue.drop_last()[i]).screen_rect.width > 0
                && queue.drop_last()[i].screen_rect.height > 0 by {
                assert(queue.drop_last()[i] == queue[i]);
            }
        }
        lemma_lodge_all_sound(p, atlas_width, atlas_height, queue.drop_last(), stamp);
        lemma_lodge_sound(
            lodge_all(p, atlas_width, atlas_height, queue.drop_last(), stamp),
            atlas_width,
            atlas_height,
            queue.last(),
            stamp,
        );
    }
}

/// A pass keeps the packing sound: after it, as before, no glyph has two
/// slots and no two slots overlap.
pub proof fn lemma_flushed_sound(
    p: Packing,
    atlas_width: u32,
    atlas_height: u32,
    queue: Seq<Queued>,
    stamp: u64,
)
    requires
        sound(p, atlas_width, atlas_height),
        all_visible(queue),
    ensures
        sound(flushed(p, atlas_width, atlas_height, queue, stamp), atlas_width, atlas_height),
{
    let start = Packing { residents: p.residents, shelves: p.shelves, fresh: Seq::empty() };
    assert(sound(start, atlas_width, atlas_height));
    lemma_touch_all_sound(start, atlas_width, atlas_height, queue, stamp);
    lemma_lodge_all_sound(
        touch_all(start, queue, stamp),
        atlas_width,
        atlas_height,
        queue,
        stamp,
    );
}

/// Where the bitmap of glyph `id` lies in the atlas, if the glyph has a slot.
pub open spec fn rect_of(residents: Seq<Resident>, id: GlyphId) -> Option<AtlasRect> {
    match find(residents, id, 0) {
        Some(i) => Some(residents[i].slot.atlas_rect),
        None => None,
    }
}

/// Every glyph of the queue has a slot.
pub open spec fn all_held(residents: Seq<Resident>, queue: Seq<Queued>) -> bool {
    forall|k: int| 0 <= k < queue.len() ==> holds(residents, (#[trigger] queue[k]).glyph_id)
}

/// An evicted glyph has no slot any more: looking it up gives nothing, not
/// the rectangle that it had.
pub proof fn lemma_evict_forgets(p: Packing, atlas_width: u32, atlas_height: u32)
    requires
        sound(p, atlas_width, atlas_height),
        p.residents.len() > 0,
    ensures
        !holds(evict(p).residents, p.residents[0].slot.glyph_id),
        rect_of(evict(p).residents, p.residents[0].slot.glyph_id) is None,
{
    let id = p.residents[0].slot.glyph_id;
    let rest = evict(p).residents;
    lemma_find(rest, id, 0);
    if find(rest, id, 0) is Some {
        let i = find(rest, id, 0)->Some_0;
        assert(rest[i] == p.residents[i + 1]);
        assert(apart(p.residents[0], p.residents[i + 1]));
    }
}

/// A pass over glyphs of which none is larger than the atlas does not fail,
/// however many they are.
pub proof fn lemma_no_overflow(
    residents: Seq<Resident>,
    queue: Seq<Queued>,
    atlas_width: u32,
    atlas_height: u32,
    from: int,
)
    requires
        0 <= from,
        forall|k: int|
            0 <= k < queue.len() ==> !too_large(#[trigger] queue[k], atlas_width, atlas_height),
    ensures
        first_too_large(residents, queue, atlas_width, atlas_height, from) is None,
    decreases queue.len() - from,
{
    if from < queue.len() {
        lemma_no_overflow(residents, queue, atlas_width, atlas_height, from + 1);
    }
}

/// A pass fails exactly where some queued glyph without a slot is larger
/// than the atlas.
pub proof fn lemma_overflow_iff(
    residents: Seq<Resident>,
    queue: Seq<Queued>,
    atlas_width: u32,
    atlas_height: u32,
    from: int,
)
    requires
        0 <= from,
    ensures
        first_too_large(residents, queue, atlas_width, atlas_height, from) is Some <==> exists|
            k: int,
        |
            from <= k < queue.len() && !holds(residents, (#[trigger] queue[k]).glyph_id)
                && too_large(queue[k], atlas_width, atlas_height),
    decreases queue.len() - from,
{
    if from < queue.len() {
        lemma_overflow_iff(residents, queue, atlas_width, atlas_height, from + 1);
        if !holds(residents, queue[from].glyph_id) && too_large(
            queue[from],
            atlas_width,
            atlas_height,
        ) {
        } else {
            if first_too_large(residents, queue, atlas_width, atlas_height, from) is Some {
                let k = choose|k: int|
                    from + 1 <= k < queue.len() && !holds(residents, (#[trigger] queue[k]).glyph_id)
                        && too_large(queue[k], atlas_width, atlas_height);
                assert(from <= k < queue.len() && !holds(residents, queue[k].glyph_id)
                    && too_large(queue[k], atlas_width, atlas_height));
            }
        }
    }
}

/// In a sound packing the slot of a glyph is the only resident with that
/// glyph.
pub proof fn lemma_rect_of(p: Packing, atlas_width: u32, atlas_height: u32, i: int)
    requires
        sound(p, atlas_width, atlas_height),
        0 <= i < p.residents.len(),
    ensures
        find(p.residents, p.residents[i].slot.glyph_id, 0) == Some(i),
        rect_of(p.residents, p.residents[i].slot.glyph_id) == Some(p.residents[i].slot.atlas_rect),
{
    let id = p.residents[i].slot.glyph_id;
    lemma_find(p.residents, id, 0);
    let j = find(p.residents, id, 0)->Some_0;
    if j < i {
        assert(apart(p.residents[j], p.residents[i]));
    } else if i < j {
        assert(apart(p.residents[i], p.residents[j]));
    }
}

/// Using a glyph again moves no bitmap: every glyph keeps its place in the
/// atlas, and no glyph gains or loses a slot.
pub proof fn lemma_touch_keeps_rects(
    p: Packing,
    atlas_width: u32,
    atlas_height: u32,
    q: Queued,
    stamp: u64,
    id: GlyphId,
)
    requires
        sound(p, atlas_width, atlas_height),
    ensures
        rect_of(touch(p, q, stamp).residents, id) == rect_of(p.residents, id),
{
    lemma_find(p.residents, q.glyph_id, 0);
    match find(p.residents, q.glyph_id, 0) {
        Some(k) => {
            let after = touch(p, q, stamp);
            lemma_touch_sound(p, atlas_width, atlas_height, q, stamp);
            let n = p.residents.len() as int;
            lemma_find(p.residents, id, 0);
            lemma_find(after.residents, id, 0);
            match find(after.residents, id, 0) {
                Some(j) => {
                    let o = if j < k {
                        j
                    } else if j < n - 1 {
                        j + 1
                    } else {
                        k
                    };
                    assert(after.residents[j].slot.glyph_id == p.residents[o].slot.glyph_id);
                    assert(after.residents[j].slot.atlas_rect == p.residents[o].slot.atlas_rect);
                    lemma_rect_of(p, atlas_width, atlas_height, o);
                },
                None => {
                    if find(p.residents, id, 0) is Some {
                        let i = find(p.residents, id, 0)->Some_0;
                        let j = if i < k {
                            i
                        } else if i == k {
                            n - 1
                        } else {
                            i - 1
                        };
                        assert(after.residents[j].slot.glyph_id == id);
                    }
                },
            }
        },
        None => {},
    }
}

/// Using the queued glyphs again moves no bitmap.
pub proof fn lemma_touch_all_keeps_rects(
    p: Packing,
    atlas_width: u32,
    atlas_height: u32,
    queue: Seq<Queued>,
    stamp: u64,
    id: GlyphId,
)
    requires
        sound(p, atlas_width, atlas_height),
    ensures
        rect_of(touch_all(p, queue, stamp).residents, id) == rect_of(p.residents, id),
    decreases queue.len(),
{
    if queue.len() > 0 {
        lemma_touch_all_keeps_rects(p, atlas_width, atlas_height, queue.drop_last(), stamp, id);
        lemma_touch_all_sound(p, atlas_width, atlas_height, queue.drop_last(), stamp);
        lemma_touch_keeps_rects(
            touch_all(p, queue.drop_last(), stamp),
            atlas_width,
            atlas_height,
            queue.last(),
            stamp,
            id,
        );
    }
}

/// Where every queued glyph has a slot already, none is given a new one:
/// the packing stays as it is.
pub proof fn lemma_lodge_all_held(
    p: Packing,
    atlas_width: u32,
    atlas_height: u32,
    queue: Seq<Queued>,
    stamp: u64,
)
    requires
        all_held(p.residents, queue),
    ensures
        lodge_all(p, atlas_width, atlas_height, queue, stamp) == p,
    decreases queue.len(),
{
    if queue.len() > 0 {
        assert(all_held(p.residents, queue.drop_last())) by {
            assert forall|k: int| 0 <= k < queue.drop_last().len() implies holds(
                p.residents,
                (#[trigger] queue.drop_last()[k]).glyph_id,
            ) by {
                assert(queue.drop_last()[k] == queue[k]);
            }
        }
        lemma_lodge_all_held(p, atlas_width, atlas_height, queue.drop_last(), stamp);
        assert(holds(p.residents, queue[queue.len() - 1].glyph_id));
    }
}

/// A pass over glyphs that all have slots already moves no bitmap: every
/// glyph keeps its place in the atlas, and no slot is made.
pub proof fn lemma_flushed_when_held(
    p: Packing,
    atlas_width: u32,
    atlas_height: u32,
    queue: Seq<Queued>,
    stamp: u64,
    id: GlyphId,
)
    requires
        sound(p, atlas_width, atlas_height),
        all_held(p.residents, queue),
    ensures
        rect_of(flushed(p, atlas_width, atlas_height, queue, stamp).residents, id) == rect_of(
            p.residents,
            id,
        ),
        flushed(p, atlas_width, atlas_height, queue, stamp).fresh.len() == 0,
        flushed(p, atlas_width, atlas_height, queue, stamp).shelves == p.shelves,
{
    let bare = Packing { residents: p.residents, shelves: p.shelves, fresh: Seq::empty() };
    assert(sound(bare, atlas_width, atlas_height));
    let touched = touch_all(bare, queue, stamp);
    lemma_touch_all_keeps_rects(bare, atlas_width, atlas_height, queue, stamp, id);
    assert(all_held(touched.residents, queue)) by {
        assert forall|k: int| 0 <= k < queue.len() implies holds(
            touched.residents,
            (#[trigger] queue[k]).glyph_id,
        ) by {
            lemma_touch_all_keeps_rects(
                bare,
                atlas_width,
                atlas_height,
                queue,
                stamp,
                queue[k].glyph_id,
            );
            assert(holds(p.residents, queue[k].glyph_id));
        }
    }
    lemma_lodge_all_held(touched, atlas_width, atlas_height, queue, stamp);
    lemma_touch_all_frame(bare, queue, stamp);
}

/// Using glyphs again changes neither the shelves nor the slots made so far.
pub proof fn lemma_touch_all_frame(p: Packing, queue: Seq<Queued>, stamp: u64)
    ensures
        touch_all(p, queue, stamp).shelves == p.shelves,
        touch_all(p, queue, stamp).fresh == p.fresh,
    decreases queue.len(),
{
    if queue.len() > 0 {
        lemma_touch_all_frame(p, queue.drop_last(), stamp);
    }
}

/// Glyph `id` has a slot at `rect` that pass `stamp` has used.
pub open spec fn pinned_at(
    residents: Seq<Resident>,
    id: GlyphId,
    stamp: u64,
    rect: AtlasRect,
) -> bool {
    exists|i: int|
        0 <= i < residents.len() && (#[trigger] residents[i]).slot.glyph_id == id
            && residents[i].stamp == stamp && residents[i].slot.atlas_rect == rect
}

/// Using a glyph again pins it where it is, and unpins no other.
pub proof fn lemma_touch_pins(
    p: Packing,
    atlas_width: u32,
    atlas_height: u32,
    q: Queued,
    stamp: u64,
    id: GlyphId,
    rect: AtlasRect,
)
    requires
        sound(p, atlas_width, atlas_height),
        pinned_at(p.residents, id, stamp, rect) || (id == q.glyph_id && rect_of(p.residents, id)
            == Some(rect)),
    ensures
        pinned_at(touch(p, q, stamp).residents, id, stamp, rect),
{
    lemma_find(p.residents, q.glyph_id, 0);
    let after = touch(p, q, stamp);
    let n = p.residents.len() as int;
    match find(p.residents, q.glyph_id, 0) {
        Some(k) => {
            if id == q.glyph_id {
                if pinned_at(p.residents, id, stamp, rect) {
                    let i = choose|i: int|
                        0 <= i < p.residents.len() && (#[trigger] p.residents[i]).slot.glyph_id
                            == id && p.residents[i].stamp == stamp
                            && p.residents[i].slot.atlas_rect == rect;
                    lemma_rect_of(p, atlas_width, atlas_height, i);
                }
                assert(after.residents[n - 1].slot.glyph_id == id);
                assert(after.residents[n - 1].slot.atlas_rect == rect);
            } else {
                let i = choose|i: int|
                    0 <= i < p.residents.len() && (#[trigger] p.residents[i]).slot.glyph_id == id
                        && p.residents[i].stamp == stamp && p.residents[i].slot.atlas_rect == rect;
                let j = if i < k {
                    i
                } else {
                    i - 1
                };
                assert(after.residents[j] == p.residents[i]);
            }
        },
        None => {},
    }
}

/// Evicting a glyph that the pass has not used unpins none.
pub proof fn lemma_evict_keeps_pinned(p: Packing, id: GlyphId, stamp: u64, rect: AtlasRect)
    requires
        p.residents.len() > 0,
        p.residents[0].stamp != stamp,
        pinned_at(p.residents, id, stamp, rect),
    ensures
        pinned_at(evict(p).residents, id, stamp, rect),
{
    let i = choose|i: int|
        0 <= i < p.residents.len() && (#[trigger] p.residents[i]).slot.glyph_id == id
            && p.residents[i].stamp == stamp && p.residents[i].slot.atlas_rect == rect;
    assert(evict(p).residents[i - 1] == p.residents[i]);
}

/// Making room evicts no glyph that the pass has used.
pub proof fn lemma_make_room_keeps_pinned(
    p: Packing,
    atlas_width: u32,
    atlas_height: u32,
    width: u32,
    height: u32,
    stamp: u64,
    id: GlyphId,
    rect: AtlasRect,
)
    requires
        pinned_at(p.residents, id, stamp, rect),
    ensures
        pinned_at(
            make_room(p, atlas_width, atlas_height, width, height, stamp).residents,
            id,
            stamp,
            rect,
        ),
    decreases p.residents.len(),
{
    if !(can_place(p, atlas_width, atlas_height, width, height) || p.residents.len() == 0
        || p.residents[0].stamp == stamp) {
        lemma_evict_keeps_pinned(p, id, stamp, rect);
        lemma_make_room_keeps_pinned(
            evict(p),
            atlas_width,
            atlas_height,
            width,
            height,
            stamp,
            id,
            rect,
        );
    }
}

/// Giving a queued glyph a slot evicts no glyph that the pass has used.
pub proof fn lemma_lodge_keeps_pinned(
    p: Packing,
    atlas_width: u32,
    atlas_height: u32,
    q: Queued,
    stamp: u64,
    id: GlyphId,
    rect: AtlasRect,
)
    requires
        pinned_at(p.residents, id, stamp, rect),
    ensures
        pinned_at(lodge(p, atlas_width, atlas_height, q, stamp).residents, id, stamp, rect),
{
    if !holds(p.residents, q.glyph_id) {
        let w = q.screen_rect.width;
        let h = q.screen_rect.height;
        lemma_make_room_keeps_pinned(p, atlas_width, atlas_height, w, h, stamp, id, rect);
        let roomy = make_room(p, atlas_width, atlas_height, w, h, stamp);
        if can_place(roomy, atlas_width, atlas_height, w, h) {
            let i = choose|i: int|
                0 <= i < roomy.residents.len() && (#[trigger] roomy.residents[i]).slot.glyph_id
                    == id && roomy.residents[i].stamp == stamp && roomy.residents[i].slot.atlas_rect
                    == rect;
            assert(place(roomy, atlas_width, q, stamp).residents[i] == roomy.residents[i]);
        }
    }
}

/// Giving the queued glyphs slots evicts no glyph that the pass has used.
pub proof fn lemma_lodge_all_keeps_pinned(
    p: Packing,
    atlas_width: u32,
    atlas_height: u32,
    queue: Seq<Queued>,
    stamp: u64,
    id: GlyphId,
    rect: AtlasRect,
)
    requires
        pinned_at(p.residents, id, stamp, rect),
    ensures
        pinned_at(lodge_all(p, atlas_width, atlas_height, queue, stamp).residents, id, stamp, rect),
    decreases queue.len(),
{
    if queue.len() > 0 {
        lemma_lodge_all_keeps_pinned(
            p,
            atlas_width,
            atlas_height,
            queue.drop_last(),
            stamp,
            id,
            rect,
        );
        lemma_lodge_keeps_pinned(
            lodge_all(p, atlas_width, atlas_height, queue.drop_last(), stamp),
            atlas_width,
            atlas_height,
            queue.last(),
            stamp,
            id,
            rect,
        );
    }
}

/// Using the queued glyphs again pins each of them that has a slot.
pub proof fn lemma_touch_all_pins(
    p: Packing,
    atlas_width: u32,
    atlas_height: u32,
    queue: Seq<Queued>,
    stamp: u64,
    k: int,
    rect: AtlasRect,
)
    requires
        sound(p, atlas_width, atlas_height),
        0 <= k < queue.len(),
        rect_of(p.residents, queue[k].glyph_id) == Some(rect),
    ensures
        pinned_at(touch_all(p, queue, stamp).residents, queue[k].glyph_id, stamp, rect),
    decreases queue.len(),
{
    let init = queue.drop_last();
    let before = touch_all(p, init, stamp);
    lemma_touch_all_sound(p, atlas_width, atlas_height, init, stamp);
    if k < queue.len() - 1 {
        assert(init[k] == queue[k]);
        lemma_touch_all_pins(p, atlas_width, atlas_height, init, stamp, k, rect);
    } else {
        lemma_touch_all_keeps_rects(p, atlas_width, atlas_height, init, stamp, queue[k].glyph_id);
    }
    lemma_touch_pins(before, atlas_width, atlas_height, queue.last(), stamp, queue[k].glyph_id, rect);
}

/// A glyph that the pass uses is not evicted in that pass: a queued glyph
/// that has a slot when the pass begins has it when the pass ends, at the
/// same place in the atlas.
pub proof fn lemma_flushed_keeps_queued(
    p: Packing,
    atlas_width: u32,
    atlas_height: u32,
    queue: Seq<Queued>,
    stamp: u64,
    k: int,
)
    requires
        sound(p, atlas_width, atlas_height),
        all_visible(queue),
        0 <= k < queue.len(),
        holds(p.residents, queue[k].glyph_id),
    ensures
        rect_of(
            flushed(p, atlas_width, atlas_height, queue, stamp).residents,
            queue[k].glyph_id,
        ) == rect_of(p.residents, queue[k].glyph_id),
{
    let id = queue[k].glyph_id;
    let rect = rect_of(p.residents, id)->Some_0;
    let bare = Packing { residents: p.residents, shelves: p.shelves, fresh: Seq::empty() };
    assert(sound(bare, atlas_width, atlas_height));
    lemma_touch_all_pins(bare, atlas_width, atlas_height, queue, stamp, k, rect);
    let touched = touch_all(bare, queue, stamp);
    lemma_lodge_all_keeps_pinned(touched, atlas_width, atlas_height, queue, stamp, id, rect);
    lemma_flushed_sound(p, atlas_width, atlas_height, queue, stamp);
    let done = flushed(p, atlas_width, atlas_height, queue, stamp);
    let i = choose|i: int|
        0 <= i < done.residents.len() && (#[trigger] done.residents[i]).slot.glyph_id == id
            && done.residents[i].stamp == stamp && done.residents[i].slot.atlas_rect == rect;
    lemma_rect_of(done, atlas_width, atlas_height, i);
}

/// No resident has the stamp of pass `stamp`.
pub open spec fn none_used(residents: Seq<Resident>, stamp: u64) -> bool {
    forall|i: int| 0 <= i < residents.len() ==> (#[trigger] residents[i]).stamp != stamp
}

/// An atlas without residents has no shelves: all its room is free.
pub proof fn lemma_empty_atlas(p: Packing, atlas_width: u32, atlas_height: u32)
    requires
        sound(p, atlas_width, atlas_height),
        p.residents.len() == 0,
    ensures
        p.shelves.len() == 0,
{
    if p.shelves.len() > 0 {
        let s = p.shelves.len() - 1;
        assert(p.shelves[s].used > 0);
        lemma_on_shelf(p.residents, s as usize, 0);
    }
}

/// Where the pass has used no resident yet, making room goes on until there
/// is room: it ends with room for every glyph that is no larger than the
/// atlas.
pub proof fn lemma_make_room_succeeds(
    p: Packing,
    atlas_width: u32,
    atlas_height: u32,
    width: u32,
    height: u32,
    stamp: u64,
)
    requires
        sound(p, atlas_width, atlas_height),
        none_used(p.residents, stamp),
        width <= atlas_width,
        height <= atlas_height,
    ensures
        can_place(
            make_room(p, atlas_width, atlas_height, width, height, stamp),
            atlas_width,
            atlas_height,
            width,
            height,
        ),
    decreases p.residents.len(),
{
    if !can_place(p, atlas_width, atlas_height, width, height) {
        if p.residents.len() == 0 {
            lemma_empty_atlas(p, atlas_width, atlas_height);
        } else {
            assert(p.residents[0].stamp != stamp);
            lemma_evict_sound(p, atlas_width, atlas_height);
            assert(none_used(evict(p).residents, stamp)) by {
                assert forall|i: int| 0 <= i < evict(p).residents.len() implies (
                #[trigger] evict(p).residents[i]).stamp != stamp by {
                    assert(evict(p).residents[i] == p.residents[i + 1]);
                }
            }
            lemma_make_room_succeeds(evict(p), atlas_width, atlas_height, width, height, stamp);
        }
    }
}

/// Eviction always makes room in the end: where the pass has used no
/// resident yet, a queued glyph without a slot that is no larger than the
/// atlas gets one, of its size, inside the atlas.
pub proof fn lemma_lodge_places(
    p: Packing,
    atlas_width: u32,
    atlas_height: u32,
    q: Queued,
    stamp: u64,
)
    requires
        sound(p, atlas_width, atlas_height),
        none_used(p.residents, stamp),
        !holds(p.residents, q.glyph_id),
        !too_large(q, atlas_width, atlas_height),
        q.screen_rect.width > 0,
        q.screen_rect.height > 0,
    ensures
        holds(lodge(p, atlas_width, atlas_height, q, stamp).residents, q.glyph_id),
        rect_of(lodge(p, atlas_width, atlas_height, q, stamp).residents, q.glyph_id) matches Some(
            rect,
        ) && rect.within(atlas_width, atlas_height) && rect.width == q.screen_rect.width
            && rect.height == q.screen_rect.height,
{
    let w = q.screen_rect.width;
    let h = q.screen_rect.height;
    let after = lodge(p, atlas_width, atlas_height, q, stamp);
    lemma_lodge_sound(p, atlas_width, atlas_height, q, stamp);
    lemma_make_room_succeeds(p, atlas_width, atlas_height, w, h, stamp);
    let roomy = make_room(p, atlas_width, atlas_height, w, h, stamp);
    let last = roomy.residents.len() as int;
    assert(after.residents[last].slot.glyph_id == q.glyph_id);
    lemma_rect_of(after, atlas_width, atlas_height, last);
    assert(seated(after.residents[last], after.shelves));
    assert(shelf_ok(after.shelves[after.residents[last].shelf as int], atlas_width, atlas_height));
}

} // verus!
