//! The rectangle shapes the packer works with: a plain size, a placed
//! rectangle, and a placed rectangle that may be flipped.
use vstd::prelude::*;

verus! {

/// A width and a height.
#[derive(Debug, Default, Clone, Copy, PartialEq, Eq, Structural)]
pub struct RectWH {
    pub w: u32,
    pub h: u32,
}

/// A placed rectangle: position and size.
#[derive(Debug, Default, Clone, Copy, PartialEq, Eq, Structural)]
pub struct RectXYWH {
    pub x: u32,
    pub y: u32,
    pub w: u32,
    pub h: u32,
}

/// A placed rectangle that records whether it was flipped on placement.
#[derive(Debug, Default, Clone, Copy, PartialEq, Eq, Structural)]
pub struct RectXYWHF {
    pub x: u32,
    pub y: u32,
    pub w: u32,
    pub h: u32,
    pub flipped: bool,
}

/// A rectangle-like shape with a size.
pub trait Rect: Sized {
    /// the width
    fn get_w(&self) -> u32;

    /// the height
    fn get_h(&self) -> u32;

    /// the size as a plain width and height
    fn get_wh(&self) -> RectWH;
}

/// A rectangle shape the packer can place and read back.
pub trait OutputRect: Rect {
    /// whether placements of this shape may flip it
    fn allow_flip() -> bool;

    /// a placed rectangle from position, size and flip
    fn from_xywhf(x: u32, y: u32, w: u32, h: u32, f: bool) -> Self;

    /// the horizontal position
    fn get_x(&self) -> u32;

    /// the vertical position
    fn get_y(&self) -> u32;
}

impl RectWH {
    pub fn new(w: u32, h: u32) -> (r: RectWH)
        ensures
            r.w == w && r.h == h,
    {
        RectWH { w, h }
    }

    /// The same size with the sides exchanged.
    pub fn flip(&self) -> (r: RectWH)
        ensures
            r.w == self.h && r.h == self.w,
    {
        RectWH { w: self.h, h: self.w }
    }

    /// The longer side.
    pub fn max_size(&self) -> (r: u32)
        ensures
            r == if self.h > self.w {
                self.h
            } else {
                self.w
            },
    {
        if self.h > self.w {
            self.h
        } else {
            self.w
        }
    }

    /// The shorter side.
    pub fn min_size(&self) -> (r: u32)
        ensures
            r == if self.h < self.w {
                self.h
            } else {
                self.w
            },
    {
        if self.h < self.w {
            self.h
        } else {
            self.w
        }
    }

    /// The area.
    pub fn area(&self) -> (r: u32)
        requires
            self.w * self.h <= u32::MAX,
        ensures
            r == self.w * self.h,
    {
        self.w * self.h
    }

    /// The perimeter.
    pub fn perimeter(&self) -> (r: u32)
        requires
            2 * (self.w + self.h) <= u32::MAX,
        ensures
            r == 2 * (self.w + self.h),
    {
        2 * (self.w + self.h)
    }

    /// This size as a rectangle placed at the origin.
    pub fn to_xywh(&self) -> (r: RectXYWH)
        ensures
            r == (RectXYWH { x: 0, y: 0, w: self.w, h: self.h }),
    {
        RectXYWH { x: 0, y: 0, w: self.w, h: self.h }
    }

    /// Grow this size, as a bounding box, to cover a placed rectangle.
    pub fn expand_with_mut(&mut self, r: RectXYWH)
        requires
            r.x + r.w <= u32::MAX,
            r.y + r.h <= u32::MAX,
        ensures
            final(self).w == if old(self).w >= r.x + r.w {
                old(self).w
            } else {
                (r.x + r.w) as u32
            },
            final(self).h == if old(self).h >= r.y + r.h {
                old(self).h
            } else {
                (r.y + r.h) as u32
            },
    {
        let right = r.x + r.w;
        let bottom = r.y + r.h;
        if right > self.w {
            self.w = right;
        }
        if bottom > self.h {
            self.h = bottom;
        }
    }
}

impl Rect for RectWH {
    fn get_w(&self) -> u32 {
        self.w
    }

    fn get_h(&self) -> u32 {
        self.h
    }

    fn get_wh(&self) -> RectWH {
        RectWH { w: self.w, h: self.h }
    }
}

impl RectXYWH {
    pub fn new(x: u32, y: u32, w: u32, h: u32) -> (r: RectXYWH)
        ensures
            r == (RectXYWH { x, y, w, h }),
    {
        RectXYWH { x, y, w, h }
    }

    /// A rectangle of the given size at the origin.
    pub fn from_wh(wh: RectWH) -> (r: RectXYWH)
        ensures
            r == (RectXYWH { x: 0, y: 0, w: wh.w, h: wh.h }),
    {
        RectXYWH { x: 0, y: 0, w: wh.w, h: wh.h }
    }

    /// The area.
    pub fn area(&self) -> (r: u32)
        requires
            self.w * self.h <= u32::MAX,
        ensures
            r == self.w * self.h,
    {
        self.w * self.h
    }

    /// The perimeter.
    pub fn perimeter(&self) -> (r: u32)
        requires
            2 * (self.w + self.h) <= u32::MAX,
        ensures
            r == 2 * (self.w + self.h),
    {
        2 * (self.w + self.h)
    }

    /// The size alone.
    pub fn to_wh(&self) -> (r: RectWH)
        ensures
            r == (RectWH { w: self.w, h: self.h }),
    {
        RectWH { w: self.w, h: self.h }
    }

    /// Drop the position back to the origin.
    pub fn reset_xy(&mut self)
        ensures
            *final(self) == (RectXYWH { x: 0, y: 0, w: old(self).w, h: old(self).h }),
    {
        self.x = 0;
        self.y = 0;
    }
}

impl Rect for RectXYWH {
    fn get_w(&self) -> u32 {
        self.w
    }

    fn get_h(&self) -> u32 {
        self.h
    }

    fn get_wh(&self) -> RectWH {
        RectWH { w: self.w, h: self.h }
    }
}

impl OutputRect for RectXYWH {
    fn allow_flip() -> bool {
        false
    }

    fn from_xywhf(x: u32, y: u32, w: u32, h: u32, _f: bool) -> Self {
        RectXYWH { x, y, w, h }
    }

    fn get_x(&self) -> u32 {
        self.x
    }

    fn get_y(&self) -> u32 {
        self.y
    }
}

impl RectXYWHF {
    /// A placed rectangle; a flipped placement exchanges the sides.
    pub fn new(x: u32, y: u32, w: u32, h: u32, flipped: bool) -> (r: RectXYWHF)
        ensures
            !flipped ==> r == (RectXYWHF { x, y, w, h, flipped: false }),
            flipped ==> r == (RectXYWHF { x, y, w: h, h: w, flipped: true }),
    {
        if flipped {
            RectXYWHF { x, y, w: h, h: w, flipped: true }
        } else {
            RectXYWHF { x, y, w, h, flipped: false }
        }
    }
}

impl Rect for RectXYWHF {
    fn get_w(&self) -> u32 {
        self.w
    }

    fn get_h(&self) -> u32 {
        self.h
    }

    fn get_wh(&self) -> RectWH {
        RectWH { w: self.w, h: self.h }
    }
}

impl OutputRect for RectXYWHF {
    fn allow_flip() -> bool {
        true
    }

    fn from_xywhf(x: u32, y: u32, w: u32, h: u32, f: bool) -> Self {
        RectXYWHF::new(x, y, w, h, f)
    }

    fn get_x(&self) -> u32 {
        self.x
    }

    fn get_y(&self) -> u32 {
        self.y
    }
}

} // verus!
