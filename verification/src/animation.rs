//! A sprite sheet stepped frame by frame.
use vstd::prelude::*;
use crate::sprite::{Point, Rect, Sprite};

verus! {

/// Represent a sprite as an animation: the frames lie in a grid on the
/// sprite's texture, all of the same size, and the sprite shows one of them.
///
/// To make the animation loop set the `repeat` variable.
#[derive(Debug, Copy, Clone)]
pub struct Animation {
    cols: u16,
    stride_w: u16,
    stride_h: u16,
    current_frame: u16,
    max_frame: u16,
    /// Should this animation repeat forever?
    pub repeat: bool,
    /// The sprite the animation is acting upon
    pub sprite: Sprite,
}

/// The frame after frame `current` of `frames`: the next one; after the
/// last, the first where the animation repeats, else the last again.
pub open spec fn frame_after(current: u16, frames: u16, repeat: bool) -> u16 {
    if current == frames - 1 {
        if repeat {
            0
        } else {
            current
        }
    } else {
        (current + 1) as u16
    }
}

/// Where frame `frame` lies on a sheet of `cols` columns whose frames are
/// `stride_w` by `stride_h` apart.
pub open spec fn frame_origin(frame: u16, cols: u16, stride_w: u16, stride_h: u16) -> Point {
    Point {
        x: ((frame as int % cols as int) * stride_w) as u16,
        y: ((frame as int / cols as int) * stride_h) as u16,
    }
}

/// Every frame of a sheet of `rows` by `cols` frames has its place within
/// the numbers that a texture coordinate can hold.
pub open spec fn sheet_fits(rows: u16, cols: u16, stride_w: u16, stride_h: u16) -> bool {
    &&& rows > 0
    &&& cols > 0
    &&& rows * cols <= u16::MAX
    &&& (cols - 1) * stride_w <= u16::MAX
    &&& (rows - 1) * stride_h <= u16::MAX
}

impl Animation {
    /// The number of columns of the sheet.
    pub closed spec fn columns(&self) -> u16 {
        self.cols
    }

    /// The number of frames.
    pub closed spec fn frames(&self) -> u16 {
        self.max_frame
    }

    /// The distance between two frames, sideways and down.
    pub closed spec fn stride(&self) -> (u16, u16) {
        (self.stride_w, self.stride_h)
    }

    /// The frame that the sprite shows, counted from zero.
    pub closed spec fn frame(&self) -> u16 {
        self.current_frame
    }

    /// Whether the first frame comes after the last.
    pub closed spec fn repeats(&self) -> bool {
        self.repeat
    }

    /// The sprite.
    pub closed spec fn shown(&self) -> Sprite {
        self.sprite
    }

    /// The frame shown is one of the frames, and every frame has its place.
    pub closed spec fn wf(&self) -> bool {
        &&& self.cols > 0
        &&& self.max_frame > 0
        &&& self.max_frame as int % self.cols as int == 0
        &&& self.current_frame < self.max_frame
        &&& (self.cols - 1) * self.stride_w <= u16::MAX
        &&& (self.max_frame as int / self.cols as int - 1) * self.stride_h <= u16::MAX
    }

    /// Create a new animations, where `stride` is the distance between
    /// frames. This means that a sprite sheet has to contain frames that are all
    /// of the same size.
    pub fn from_sprite(sprite: Sprite, rows: u16, cols: u16, stride_w: u16, stride_h: u16) -> (a:
        Self)
        requires
            sheet_fits(rows, cols, stride_w, stride_h),
        ensures
            a.wf(),
            a.columns() == cols,
            a.frames() == rows * cols,
            a.stride() == (stride_w, stride_h),
            a.frame() == 0,
            a.repeats() == false,
            a.shown() == sprite,
    {
        proof {
            assert(rows * cols > 0 && (rows * cols) % (cols as int) == 0 && (rows * cols) / (
            cols as int) == rows) by (nonlinear_arith)
                requires
                    rows > 0,
                    cols > 0,
            ;
        }
        let max_frame = rows * cols;
        Animation {
            cols,
            stride_w,
            stride_h,
            current_frame: 0,
            repeat: false,
            max_frame,
            sprite,
        }
    }

    /// Get the current frame, starting from zero.
    pub fn current_frame(&self) -> (f: u16)
        ensures
            f == self.frame(),
    {
        self.current_frame
    }

    /// Step to the next frame and have the sprite show it. After the last
    /// frame comes the first where the animation repeats; else the
    /// animation stays at the last frame and the sprite as it is.
    pub fn next(&mut self)
        requires
            old(self).wf(),
        ensures
            final(self).wf(),
            final(self).columns() == old(self).columns(),
            final(self).frames() == old(self).frames(),
            final(self).stride() == old(self).stride(),
            final(self).repeats() == old(self).repeats(),
            final(self).frame() == frame_after(
                old(self).frame(),
                old(self).frames(),
                old(self).repeats(),
            ),
            final(self).shown() == (if old(self).frame() == old(self).frames() - 1 && !old(self).repeats() {
                old(self).shown()
            } else {
                Sprite {
                    texture_rect: Rect {
                        origin: frame_origin(
                            final(self).frame(),
                            old(self).columns(),
                            old(self).stride().0,
                            old(self).stride().1,
                        ),
                        size: old(self).shown().texture_rect.size,
                    },
                    ..old(self).shown()
                }
            }),
    {
        if self.current_frame == self.max_frame - 1 {
            if self.repeat {
                self.current_frame = 0;
            } else {
                return ;
            }
        } else {
            self.current_frame += 1;
        }
        let x = self.current_frame % self.cols;
        let y = self.current_frame / self.cols;
        proof {
            let rows = self.max_frame as int / self.cols as int;
            assert(y < rows) by (nonlinear_arith)
                requires
                    y == self.current_frame as int / self.cols as int,
                    rows == self.max_frame as int / self.cols as int,
                    self.max_frame as int % self.cols as int == 0,
                    self.current_frame < self.max_frame,
                    self.cols > 0,
            ;
            assert(0 <= x * self.stride_w <= (self.cols - 1) * self.stride_w) by (nonlinear_arith)
                requires
                    0 <= x <= self.cols - 1,
                    0 <= self.stride_w,
            ;
            assert(0 <= y * self.stride_h <= (rows - 1) * self.stride_h) by (nonlinear_arith)
                requires
                    0 <= y <= rows - 1,
                    0 <= self.stride_h,
            ;
        }
        let offset = Point::new(x * self.stride_w, y * self.stride_h);
        self.sprite.texture_rect.origin = offset;
    }
}

} // verus!
