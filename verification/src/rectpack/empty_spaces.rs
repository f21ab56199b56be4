//! Bookkeeping of the empty spaces of a bin: inserting a rectangle takes
//! the most recently created space that holds it, replaces that space by
//! the leftover splits, and grows the running bounding box.
use vstd::prelude::*;
use crate::rectpack::insert_and_split::{spec_splits_seq, CreatedSplits};
use crate::rectpack::rect_structs::{RectWH, RectXYWH};

verus! {

/// A space whose far edges stay within the coordinate range.
pub open spec fn sp_wf(r: RectXYWH) -> bool {
    r.x + r.w <= u32::MAX && r.y + r.h <= u32::MAX
}

/// Whether a rectangle of the given size fits a space.
pub open spec fn fits(im: RectXYWH, sp: RectXYWH) -> bool {
    im.w <= sp.w && im.h <= sp.h
}

/// A bounding box grown to cover a placed rectangle.
pub open spec fn expand_aabb(a: RectWH, r: RectXYWH) -> RectWH {
    RectWH {
        w: if a.w >= r.x + r.w {
            a.w
        } else {
            (r.x + r.w) as u32
        },
        h: if a.h >= r.y + r.h {
            a.h
        } else {
            (r.y + r.h) as u32
        },
    }
}

/// One successful placement, spelled out: the rectangle was placed at
/// space `i`, the latest space that holds it, which the splits replaced.
pub open spec fn inserted_at(
    prev: EmptySpaces,
    img: RectXYWH,
    res: RectXYWH,
    cur: EmptySpaces,
    i: int,
) -> bool {
    &&& 0 <= i < prev.spaces@.len()
    &&& fits(img, prev.spaces@[i])
    &&& forall|j: int| i < j < prev.spaces@.len() ==> !fits(img, #[trigger] prev.spaces@[j])
    &&& res == (RectXYWH {
        x: prev.spaces@[i].x,
        y: prev.spaces@[i].y,
        w: img.w,
        h: img.h,
    })
    &&& cur.spaces@ == prev.spaces@.remove(i) + spec_splits_seq(
        RectWH { w: img.w, h: img.h },
        prev.spaces@[i],
    )
    &&& cur.current_aabb == expand_aabb(prev.current_aabb, res)
}

/// A successful placement happened at some space.
pub open spec fn insert_some_ok(
    prev: EmptySpaces,
    img: RectXYWH,
    res: RectXYWH,
    cur: EmptySpaces,
) -> bool {
    exists|i: int| inserted_at(prev, img, res, cur, i)
}

/// The empty spaces of one bin and the bounding box of what has been
/// placed in it so far.
#[derive(Debug, Clone, PartialEq, Eq)]
pub struct EmptySpaces {
    /// the bounding box of all placements so far
    pub current_aabb: RectWH,
    /// the spaces still free, most recently created last
    pub spaces: Vec<RectXYWH>,
}

impl EmptySpaces {
    /// All tracked spaces stay within the coordinate range.
    pub open spec fn wf(&self) -> bool {
        forall|i: int| 0 <= i < self.spaces@.len() ==> sp_wf(#[trigger] self.spaces@[i])
    }

    /// An empty bookkeeping: no bin yet.
    pub fn new() -> (r: EmptySpaces)
        ensures
            r.current_aabb == (RectWH { w: 0, h: 0 }),
            r.spaces@ =~= Seq::<RectXYWH>::empty(),
            r.wf(),
    {
        EmptySpaces { current_aabb: RectWH { w: 0, h: 0 }, spaces: Vec::new() }
    }

    /// Start over with one empty space covering a fresh bin of size `r`.
    pub fn reset(&mut self, r: RectWH)
        ensures
            final(self).current_aabb == (RectWH { w: 0, h: 0 }),
            final(self).spaces@ =~= seq![RectXYWH { x: 0, y: 0, w: r.w, h: r.h }],
            final(self).wf(),
    {
        self.current_aabb = RectWH { w: 0, h: 0 };
        self.spaces.clear();
        self.spaces.push(RectXYWH { x: 0, y: 0, w: r.w, h: r.h });
    }

    /// Place a rectangle of the given size into the most recently created
    /// space that holds it. On success the chosen space is replaced by
    /// its leftover splits, the bounding box grows to cover the
    /// placement, and the placement is returned; when no space holds the
    /// rectangle, nothing changes.
    #[verifier::loop_isolation(false)]
    pub fn insert(&mut self, image_rectangle: RectXYWH) -> (r: Option<RectXYWH>)
        requires
            old(self).wf(),
        ensures
            final(self).wf(),
            r is None ==> *final(self) == *old(self) && (forall|j: int|
                0 <= j < old(self).spaces@.len() ==> !fits(
                    image_rectangle,
                    #[trigger] old(self).spaces@[j],
                )),
            r matches Some(res) ==> insert_some_ok(
                *old(self),
                image_rectangle,
                res,
                *final(self),
            ),
    {
        let ghost orig = *old(self);
        let mut i: usize = self.spaces.len();
        while i > 0
            invariant
                orig == *old(self),
                *self == orig,
                orig.wf(),
                i <= self.spaces@.len(),
                forall|j: int|
                    i <= j < self.spaces@.len() ==> !fits(
                        image_rectangle,
                        #[trigger] self.spaces@[j],
                    ),
            decreases i,
        {
            i = i - 1;
            let cand = self.spaces[i];
            let splits = CreatedSplits::new(image_rectangle.to_wh(), cand);
            if splits.valid() {
                let ghost gi = i as int;
                self.spaces.remove(i);
                match splits {
                    CreatedSplits::Failed => {},
                    CreatedSplits::Zero => {},
                    CreatedSplits::One(a) => {
                        self.spaces.push(a);
                    },
                    CreatedSplits::Two(a, b) => {
                        self.spaces.push(a);
                        self.spaces.push(b);
                    },
                }
                let result = RectXYWH::new(cand.x, cand.y, image_rectangle.w, image_rectangle.h);
                self.current_aabb.expand_with_mut(result);
                proof {
                    assert(self.spaces@ =~= orig.spaces@.remove(gi) + spec_splits_seq(
                        RectWH { w: image_rectangle.w, h: image_rectangle.h },
                        orig.spaces@[gi],
                    ));
                    assert forall|k: int| 0 <= k < self.spaces@.len() implies sp_wf(
                        #[trigger] self.spaces@[k],
                    ) by {
                        if k < orig.spaces@.remove(gi).len() {
                            assert(orig.spaces@.remove(gi)[k] == if k < gi {
                                orig.spaces@[k]
                            } else {
                                orig.spaces@[k + 1]
                            });
                        }
                    }
                    assert(fits(image_rectangle, orig.spaces@[gi]));
                    assert(self.spaces@ == orig.spaces@.remove(gi) + spec_splits_seq(
                        RectWH { w: image_rectangle.w, h: image_rectangle.h },
                        orig.spaces@[gi],
                    ));
                    assert(self.current_aabb == expand_aabb(orig.current_aabb, result));
                    assert(inserted_at(orig, image_rectangle, result, *self, gi));
                    assert(insert_some_ok(orig, image_rectangle, result, *self)) by {
                        assert(inserted_at(orig, image_rectangle, result, *self, gi));
                    }
                }
                return Some(result);
            }
        }
        None
    }
}

} // verus!
