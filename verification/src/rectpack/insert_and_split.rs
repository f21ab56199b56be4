//! Splitting an empty space around an inserted rectangle: the space
//! minus the rectangle at its corner decomposes into zero, one or two
//! leftover rectangles.
use vstd::prelude::*;
use crate::rectpack::rect_structs::{RectWH, RectXYWH};

verus! {

/// The leftover spaces created by inserting a rectangle into the corner
/// of an empty space, or the report that it does not fit.
#[derive(Debug, Clone, Copy, PartialEq, Eq, Structural)]
pub enum CreatedSplits {
    /// the rectangle does not fit the space
    Failed,
    /// the rectangle fills the space exactly
    Zero,
    /// one leftover strip
    One(RectXYWH),
    /// two leftover rectangles, the larger first
    Two(RectXYWH, RectXYWH),
}

/// The splits of inserting size `im` into the corner of space `sp`,
/// as a value: exactly what `CreatedSplits::new` returns.
pub open spec fn spec_splits(im: RectWH, sp: RectXYWH) -> CreatedSplits {
    if im.w > sp.w || im.h > sp.h {
        CreatedSplits::Failed
    } else {
        let free_w = sp.w - im.w;
        let free_h = sp.h - im.h;
        if free_w == 0 && free_h == 0 {
            CreatedSplits::Zero
        } else if free_w > 0 && free_h == 0 {
            CreatedSplits::One(
                RectXYWH {
                    x: (sp.x + im.w) as u32,
                    y: sp.y,
                    w: (sp.w - im.w) as u32,
                    h: sp.h,
                },
            )
        } else if free_w == 0 && free_h > 0 {
            CreatedSplits::One(
                RectXYWH {
                    x: sp.x,
                    y: (sp.y + im.h) as u32,
                    w: sp.w,
                    h: (sp.h - im.h) as u32,
                },
            )
        } else if free_w > free_h {
            CreatedSplits::Two(
                RectXYWH { x: (sp.x + im.w) as u32, y: sp.y, w: free_w as u32, h: sp.h },
                RectXYWH { x: sp.x, y: (sp.y + im.h) as u32, w: im.w, h: free_h as u32 },
            )
        } else {
            CreatedSplits::Two(
                RectXYWH { x: sp.x, y: (sp.y + im.h) as u32, w: im.w, h: free_h as u32 },
                RectXYWH { x: (sp.x + im.w) as u32, y: sp.y, w: free_w as u32, h: sp.h },
            )
        }
    }
}

/// The split rectangles as a sequence, in the order they are kept.
pub open spec fn spec_splits_seq(im: RectWH, sp: RectXYWH) -> Seq<RectXYWH> {
    match spec_splits(im, sp) {
        CreatedSplits::Failed => Seq::empty(),
        CreatedSplits::Zero => Seq::empty(),
        CreatedSplits::One(a) => seq![a],
        CreatedSplits::Two(a, b) => seq![a, b],
    }
}

impl CreatedSplits {
    /// The leftover rectangles, in order; none for a failed insertion.
    pub fn vec(&self) -> (r: Vec<RectXYWH>)
        ensures
            r@ == (match *self {
                CreatedSplits::Failed => Seq::<RectXYWH>::empty(),
                CreatedSplits::Zero => Seq::<RectXYWH>::empty(),
                CreatedSplits::One(a) => seq![a],
                CreatedSplits::Two(a, b) => seq![a, b],
            }),
    {
        match self {
            CreatedSplits::Failed => {
                let r = Vec::new();
                assert(r@ =~= Seq::<RectXYWH>::empty());
                r
            },
            CreatedSplits::Zero => {
                let r = Vec::new();
                assert(r@ =~= Seq::<RectXYWH>::empty());
                r
            },
            CreatedSplits::One(a) => {
                let mut r = Vec::new();
                r.push(*a);
                assert(r@ =~= seq![*a]);
                r
            },
            CreatedSplits::Two(a, b) => {
                let mut r = Vec::new();
                r.push(*a);
                r.push(*b);
                assert(r@ =~= seq![*a, *b]);
                r
            },
        }
    }

    /// Whether the insertion fit at all.
    pub fn valid(&self) -> (r: bool)
        ensures
            r == !(*self is Failed),
    {
        match self {
            CreatedSplits::Failed => false,
            _ => true,
        }
    }

    /// Insert size `im` into the corner of space `sp` and compute the
    /// leftover spaces: nothing when it fills the space, one strip when
    /// it spans one side, two rectangles otherwise, larger first.
    pub fn new(im: RectWH, sp: RectXYWH) -> (r: CreatedSplits)
        requires
            sp.x + sp.w <= u32::MAX,
            sp.y + sp.h <= u32::MAX,
        ensures
            r == spec_splits(im, sp),
    {
        if im.w > sp.w || im.h > sp.h {
            return CreatedSplits::Failed;
        }
        let free_w = sp.w - im.w;
        let free_h = sp.h - im.h;
        if free_w == 0 && free_h == 0 {
            CreatedSplits::Zero
        } else if free_w > 0 && free_h == 0 {
            CreatedSplits::One(RectXYWH::new(sp.x + im.w, sp.y, sp.w - im.w, sp.h))
        } else if free_w == 0 && free_h > 0 {
            CreatedSplits::One(RectXYWH::new(sp.x, sp.y + im.h, sp.w, sp.h - im.h))
        } else if free_w > free_h {
            CreatedSplits::Two(
                RectXYWH::new(sp.x + im.w, sp.y, free_w, sp.h),
                RectXYWH::new(sp.x, sp.y + im.h, im.w, free_h),
            )
        } else {
            CreatedSplits::Two(
                RectXYWH::new(sp.x, sp.y + im.h, im.w, free_h),
                RectXYWH::new(sp.x + im.w, sp.y, free_w, sp.h),
            )
        }
    }
}

} // verus!
