//! From a glyph's slot in the atlas to what a renderer draws: where the quad
//! goes, and which part of the atlas covers it.
use vstd::prelude::*;
use vstd::arithmetic::div_mod::lemma_div_multiples_vanish;
use crate::geometry::{AtlasRect, Point};
use crate::packing::AtlasSlot;

verus! {

/// A part of a whole, as an exact fraction: a texture coordinate relative to
/// the size of the atlas.
#[derive(Debug, Copy, Clone, PartialEq, Eq, Structural)]
pub struct Fraction {
    /// The part, in atlas pixels
    pub numerator: u32,
    /// The whole, in atlas pixels
    pub denominator: u32,
}

/// A width and a height in pixels.
#[derive(Debug, Copy, Clone, PartialEq, Eq, Structural)]
pub struct Extent {
    /// Width
    pub width: u32,
    /// Height
    pub height: u32,
}

/// A pair of texture coordinates.
#[derive(Debug, Copy, Clone, PartialEq, Eq, Structural)]
pub struct Uv {
    /// Along the width of the atlas
    pub u: Fraction,
    /// Along the height of the atlas
    pub v: Fraction,
}

/// Where a quad is drawn and how large.
#[derive(Debug, Copy, Clone, PartialEq, Eq, Structural)]
pub struct Transform {
    /// The top left corner of the quad
    pub translation: Point,
    /// The width and the height of the quad
    pub scale: Extent,
}

/// What a renderer needs to draw one glyph as a textured rectangle.
#[derive(Debug, Copy, Clone, PartialEq, Eq, Structural)]
pub struct QuadDescriptor {
    /// Where the quad is drawn and how large
    pub transform: Transform,
    /// The top left corner of the glyph in the atlas, as fractions of the
    /// atlas's width and height
    pub uv_origin: Uv,
    /// The size of the glyph in the atlas, as fractions of the atlas's width
    /// and height
    pub uv_size: Uv,
}

/// The quad of a slot in an atlas of size `atlas_size`.
pub open spec fn quad_of(slot: AtlasSlot, atlas_size: (u32, u32)) -> QuadDescriptor {
    QuadDescriptor {
        transform: Transform {
            translation: Point { x: slot.screen_rect.x, y: slot.screen_rect.y },
            scale: Extent { width: slot.screen_rect.width, height: slot.screen_rect.height },
        },
        uv_origin: Uv {
            u: Fraction { numerator: slot.atlas_rect.x, denominator: atlas_size.0 },
            v: Fraction { numerator: slot.atlas_rect.y, denominator: atlas_size.1 },
        },
        uv_size: Uv {
            u: Fraction { numerator: slot.atlas_rect.width, denominator: atlas_size.0 },
            v: Fraction { numerator: slot.atlas_rect.height, denominator: atlas_size.1 },
        },
    }
}

/// The fraction times `whole`, rounded down.
pub open spec fn scaled(f: Fraction, whole: u32) -> int {
    if f.denominator == 0 {
        0
    } else {
        (f.numerator * whole) / (f.denominator as int)
    }
}

/// The rectangle of atlas pixels that the texture coordinates of a quad
/// name in an atlas of size `atlas_size`.
pub open spec fn texels_of(quad: QuadDescriptor, atlas_size: (u32, u32)) -> (int, int, int, int) {
    (
        scaled(quad.uv_origin.u, atlas_size.0),
        scaled(quad.uv_origin.v, atlas_size.1),
        scaled(quad.uv_size.u, atlas_size.0),
        scaled(quad.uv_size.v, atlas_size.1),
    )
}

/// The texture coordinates of a quad, multiplied by the size of the atlas
/// again, are the slot's rectangle in the atlas, exactly.
pub proof fn lemma_compose_round_trip(slot: AtlasSlot, atlas_size: (u32, u32))
    requires
        atlas_size.0 > 0,
        atlas_size.1 > 0,
    ensures
        texels_of(quad_of(slot, atlas_size), atlas_size) == (
            slot.atlas_rect.x as int,
            slot.atlas_rect.y as int,
            slot.atlas_rect.width as int,
            slot.atlas_rect.height as int,
        ),
{
    lemma_div_multiples_vanish(slot.atlas_rect.x as int, atlas_size.0 as int);
    lemma_div_multiples_vanish(slot.atlas_rect.y as int, atlas_size.1 as int);
    lemma_div_multiples_vanish(slot.atlas_rect.width as int, atlas_size.0 as int);
    lemma_div_multiples_vanish(slot.atlas_rect.height as int, atlas_size.1 as int);
    assert(slot.atlas_rect.x * atlas_size.0 == atlas_size.0 * slot.atlas_rect.x) by (nonlinear_arith);
    assert(slot.atlas_rect.y * atlas_size.1 == atlas_size.1 * slot.atlas_rect.y) by (nonlinear_arith);
    assert(slot.atlas_rect.width * atlas_size.0 == atlas_size.0 * slot.atlas_rect.width)
        by (nonlinear_arith);
    assert(slot.atlas_rect.height * atlas_size.1 == atlas_size.1 * slot.atlas_rect.height)
        by (nonlinear_arith);
}

/// For a slot that lies inside the atlas, origin and size together never
/// reach past the whole: the texture coordinates stay within one.
pub proof fn lemma_uv_within_one(slot: AtlasSlot, atlas_size: (u32, u32))
    requires
        slot.atlas_rect.within(atlas_size.0, atlas_size.1),
    ensures
        quad_of(slot, atlas_size).uv_origin.u.numerator + quad_of(
            slot,
            atlas_size,
        ).uv_size.u.numerator <= quad_of(slot, atlas_size).uv_origin.u.denominator,
        quad_of(slot, atlas_size).uv_origin.v.numerator + quad_of(
            slot,
            atlas_size,
        ).uv_size.v.numerator <= quad_of(slot, atlas_size).uv_origin.v.denominator,
        quad_of(slot, atlas_size).uv_size.u.denominator == atlas_size.0,
        quad_of(slot, atlas_size).uv_size.v.denominator == atlas_size.1,
{
}

/// The quad of a slot: it is drawn at the slot's screen rectangle, and
/// covered by the slot's rectangle of the atlas.
pub fn compose(slot: AtlasSlot, atlas_size: (u32, u32)) -> (quad: QuadDescriptor)
    ensures
        quad == quad_of(slot, atlas_size),
{
    QuadDescriptor {
        transform: Transform {
            translation: Point { x: slot.screen_rect.x, y: slot.screen_rect.y },
            scale: Extent { width: slot.screen_rect.width, height: slot.screen_rect.height },
        },
        uv_origin: Uv {
            u: Fraction { numerator: slot.atlas_rect.x, denominator: atlas_size.0 },
            v: Fraction { numerator: slot.atlas_rect.y, denominator: atlas_size.1 },
        },
        uv_size: Uv {
            u: Fraction { numerator: slot.atlas_rect.width, denominator: atlas_size.0 },
            v: Fraction { numerator: slot.atlas_rect.height, denominator: atlas_size.1 },
        },
    }
}

/// The rectangle of atlas pixels that the texture coordinates of a quad
/// name, or `None` where a denominator is zero or the rectangle does not fit
/// the coordinates of an atlas.
pub fn texels(quad: &QuadDescriptor, atlas_size: (u32, u32)) -> (r: Option<AtlasRect>)
    ensures
        match r {
            Some(rect) => (rect.x as int, rect.y as int, rect.width as int, rect.height as int)
                == texels_of(*quad, atlas_size) && nonzero(*quad),
            None => !nonzero(*quad) || !fits_u32(texels_of(*quad, atlas_size)),
        },
{
    if quad.uv_origin.u.denominator == 0 || quad.uv_origin.v.denominator == 0
        || quad.uv_size.u.denominator == 0 || quad.uv_size.v.denominator == 0 {
        return None;
    }
    let x = scale_fraction(quad.uv_origin.u, atlas_size.0);
    let y = scale_fraction(quad.uv_origin.v, atlas_size.1);
    let width = scale_fraction(quad.uv_size.u, atlas_size.0);
    let height = scale_fraction(quad.uv_size.v, atlas_size.1);
    if x > 0xffff_ffff || y > 0xffff_ffff || width > 0xffff_ffff || height > 0xffff_ffff {
        return None;
    }
    Some(AtlasRect { x: x as u32, y: y as u32, width: width as u32, height: height as u32 })
}

/// No denominator of the quad's texture coordinates is zero.
pub open spec fn nonzero(quad: QuadDescriptor) -> bool {
    quad.uv_origin.u.denominator != 0 && quad.uv_origin.v.denominator != 0
        && quad.uv_size.u.denominator != 0 && quad.uv_size.v.denominator != 0
}

/// Each of the four numbers is a `u32`.
pub open spec fn fits_u32(t: (int, int, int, int)) -> bool {
    0 <= t.0 <= u32::MAX && 0 <= t.1 <= u32::MAX && 0 <= t.2 <= u32::MAX && 0 <= t.3 <= u32::MAX
}

fn scale_fraction(f: Fraction, whole: u32) -> (r: u64)
    requires
        f.denominator != 0,
    ensures
        r == scaled(f, whole),
{
    proof {
        assert(0 <= f.numerator * whole <= 0xffff_ffff * 0xffff_ffff) by (nonlinear_arith)
            requires
                0 <= f.numerator <= 0xffff_ffff,
                0 <= whole <= 0xffff_ffff,
        ;
    }
    (f.numerator as u64 * whole as u64) / (f.denominator as u64)
}

} // verus!
