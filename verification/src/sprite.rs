//! A sprite: a rectangle that shows a part of a texture.
use vstd::prelude::*;

verus! {

/// Tiling mode. Either stretch or tiling
#[derive(Debug, Copy, Clone, PartialEq, Eq, Structural)]
pub enum FillMode {
    /// Stretch the texture to cover the entire
    /// sprite size.
    Stretch,
    /// Repeat a portion of the texture over
    /// the entire sprite.
    Repeat,
}

/// A place in a texture, in pixels from its top left corner.
#[derive(Debug, Copy, Clone, PartialEq, Eq, Structural)]
pub struct Point {
    /// Column
    pub x: u16,
    /// Row
    pub y: u16,
}

impl Point {
    /// The place in column `x` of row `y`.
    pub fn new(x: u16, y: u16) -> (p: Self)
        ensures
            p == (Point { x, y }),
    {
        Point { x, y }
    }

    /// The top left corner.
    pub fn zero() -> (p: Self)
        ensures
            p == (Point { x: 0, y: 0 }),
    {
        Point { x: 0, y: 0 }
    }
}

/// A width and a height in pixels.
#[derive(Debug, Copy, Clone, PartialEq, Eq, Structural)]
pub struct Size {
    /// Width
    pub width: u16,
    /// Height
    pub height: u16,
}

impl Size {
    /// A size of `width` by `height`.
    pub fn new(width: u16, height: u16) -> (s: Self)
        ensures
            s == (Size { width, height }),
    {
        Size { width, height }
    }
}

/// A rectangle of a texture.
#[derive(Debug, Copy, Clone, PartialEq, Eq, Structural)]
pub struct Rect {
    /// The top left corner
    pub origin: Point,
    /// The width and the height
    pub size: Size,
}

impl Rect {
    /// The rectangle of `size` whose top left corner is `origin`.
    pub fn new(origin: Point, size: Size) -> (r: Self)
        ensures
            r == (Rect { origin, size }),
    {
        Rect { origin, size }
    }
}

/// A sprite, showing a rectangle of a texture.
#[derive(Debug, Copy, Clone, PartialEq, Eq, Structural)]
pub struct Sprite {
    /// The size of the whole texture
    pub texture_size: Size,
    /// The size of the sprite
    pub size: Size,
    /// A rectangle representing the area
    /// of a texture to render.
    pub texture_rect: Rect,
    /// The order in which this sprite appears.
    pub z_index: i32,
    /// Decide whether to tile or stretch.
    pub fill: FillMode,
}

impl Sprite {
    /// Create a new sprite using a given texture size: it has the size of
    /// the texture and shows all of it.
    pub fn from_size(texture_size: Size) -> (s: Sprite)
        ensures
            s == (Sprite {
                texture_size,
                size: texture_size,
                texture_rect: Rect { origin: Point { x: 0, y: 0 }, size: texture_size },
                z_index: 50,
                fill: FillMode::Stretch,
            }),
    {
        Sprite {
            size: texture_size,
            texture_size,
            texture_rect: Rect { origin: Point { x: 0, y: 0 }, size: texture_size },
            z_index: 50,
            fill: FillMode::Stretch,
        }
    }
}

} // verus!
