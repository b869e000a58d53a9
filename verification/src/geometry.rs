//! Points and rectangles of the layout plane and of the atlas.
use vstd::prelude::*;

verus! {

/// A position in layout space. `y` grows downwards.
#[derive(Debug, Copy, Clone, PartialEq, Eq, Structural)]
pub struct Point {
    /// Horizontal coordinate
    pub x: i64,
    /// Vertical coordinate
    pub y: i64,
}

/// A rectangle in layout space, given by its top left corner and its size.
#[derive(Debug, Copy, Clone, PartialEq, Eq, Structural)]
pub struct ScreenRect {
    /// Left edge
    pub x: i64,
    /// Top edge
    pub y: i64,
    /// Width
    pub width: u32,
    /// Height
    pub height: u32,
}

impl ScreenRect {
    /// The x-coordinate just past the right edge.
    pub open spec fn right(&self) -> int {
        self.x + self.width
    }

    /// The y-coordinate just past the bottom edge.
    pub open spec fn bottom(&self) -> int {
        self.y + self.height
    }
}

/// A rectangle of atlas pixels, given by its top left corner and its size.
#[derive(Debug, Copy, Clone, PartialEq, Eq, Structural)]
pub struct AtlasRect {
    /// Left edge
    pub x: u32,
    /// Top edge
    pub y: u32,
    /// Width
    pub width: u32,
    /// Height
    pub height: u32,
}

impl AtlasRect {
    /// The x-coordinate just past the right edge.
    pub open spec fn right(&self) -> int {
        self.x + self.width
    }

    /// The y-coordinate just past the bottom edge.
    pub open spec fn bottom(&self) -> int {
        self.y + self.height
    }

    /// The rectangle lies inside an atlas of the given size.
    pub open spec fn within(&self, width: u32, height: u32) -> bool {
        self.right() <= width && self.bottom() <= height
    }

    /// The pixel `(px, py)` lies in the rectangle.
    pub open spec fn covers(&self, px: int, py: int) -> bool {
        self.x <= px < self.right() && self.y <= py < self.bottom()
    }

    /// The two rectangles share no pixel.
    pub open spec fn disjoint(&self, other: AtlasRect) -> bool {
        ||| self.width == 0
        ||| self.height == 0
        ||| other.width == 0
        ||| other.height == 0
        ||| self.right() <= other.x
        ||| other.right() <= self.x
        ||| self.bottom() <= other.y
        ||| other.bottom() <= self.y
    }
}

} // verus!
