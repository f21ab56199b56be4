//! The packer's image descriptions: where an image comes from, how its
//! rectangles are laid out, and the keys packing results are filed under.
use vstd::prelude::*;
use crate::composite::rect_idx;
use crate::rectpack::rect_structs::{RectWH, RectXYWH};

verus! {

/// The position right after the last dot of a file name, where its
/// extension starts; the start of the name when it has no dot.
pub open spec fn spec_ext_start(s: Seq<u8>) -> int
    decreases s.len(),
{
    if s.len() == 0 {
        0
    } else if s.last() == 46u8 {
        s.len() as int
    } else {
        spec_ext_start(s.drop_last())
    }
}

/// Whether a file name carries an image extension the packer accepts:
/// exactly `png`, whatever precedes the last dot.
pub fn valid_ext(v: &[u8]) -> (r: bool)
    ensures
        r == (v@.skip(spec_ext_start(v@)) == seq![112u8, 110u8, 103u8]),
{
    let mut i: usize = v.len();
    let mut start: usize = 0;
    proof {
        assert(v@.take(v@.len() as int) =~= v@);
    }
    loop
        invariant_except_break
            start == 0,
        invariant
            i <= v@.len(),
            spec_ext_start(v@) == spec_ext_start(v@.take(i as int)),
        ensures
            start <= v@.len(),
            start == spec_ext_start(v@),
        decreases i,
    {
        if i == 0 {
            proof {
                assert(v@.take(0) =~= Seq::<u8>::empty());
            }
            break;
        }
        if v[i - 1] == 46 {
            proof {
                assert(v@.take(i as int).last() == 46u8);
            }
            start = i;
            break;
        }
        proof {
            assert(v@.take(i as int).last() == v@[i - 1]);
            assert(v@.take(i as int).drop_last() =~= v@.take(i - 1));
            assert(spec_ext_start(v@.take(i as int)) == spec_ext_start(v@.take(i as int).drop_last()));
            assert(spec_ext_start(v@.take(i as int)) == spec_ext_start(v@.take(i - 1)));
        }
        i = i - 1;
    }
    let ext_len = v.len() - start;
    let r = ext_len == 3 && v[start] == 112 && v[start + 1] == 110 && v[start + 2] == 103;
    proof {
        if r {
            assert(v@.skip(spec_ext_start(v@)) =~= seq![112u8, 110u8, 103u8]);
        } else {
            assert(v@.skip(spec_ext_start(v@)) != seq![112u8, 110u8, 103u8]) by {
                if v@.skip(start as int).len() == 3 {
                    assert(v@.skip(start as int)[0] == v@[start as int]);
                    assert(v@.skip(start as int)[1] == v@[start + 1]);
                    assert(v@.skip(start as int)[2] == v@[start + 2]);
                }
            }
        }
    }
    r
}

/// Where an image lives.
#[derive(Debug, Clone, Copy, PartialEq, Eq)]
pub enum Image {
    /// an external file, by path
    External(&'static str),
}

impl Image {
    /// The path of the image.
    pub fn to_path(&self) -> (r: &'static str)
        ensures
            *self matches Image::External(p) && r == p,
    {
        match self {
            Image::External(path) => path,
        }
    }
}

/// The key a packed image is filed under: an identifier and an optional
/// layer name.
#[derive(Debug, Clone, Copy, PartialEq, Eq, Hash)]
pub struct PackerKey {
    pub id: &'static str,
    pub layer: Option<&'static str>,
}

/// How an image's rectangles are laid out.
#[derive(Debug, Clone, PartialEq, Eq)]
pub enum ImageLoad {
    /// the whole image as one rectangle
    Whole,
    /// a regular grid of tiles: the first tile, the gap between tiles,
    /// and the tile count in each direction
    Tiled { init: RectXYWH, gap: RectWH, count: RectWH },
    /// an explicit list of rectangles
    Atlas(Vec<RectXYWH>),
}

/// The rectangle of tile `(col, row)` of a grid.
pub open spec fn spec_tile(init: RectXYWH, gap: RectWH, col: int, row: int) -> RectXYWH {
    RectXYWH {
        x: (init.x + gap.w + (gap.w + init.w) * col) as u32,
        y: (init.y + gap.h + (gap.h + init.h) * row) as u32,
        w: init.w,
        h: init.h,
    }
}

impl ImageLoad {
    /// The rectangles this layout cuts out of an image of size `whole`:
    /// the image itself, the grid tiles row by row, or the explicit list.
    #[verifier::loop_isolation(false)]
    pub fn into_rects(self, whole: RectWH) -> (r: Vec<RectXYWH>)
        requires
            self matches ImageLoad::Tiled { init, gap, count } ==> count.w > 0 && count.w * count.h
                <= u32::MAX && init.x + gap.w + (gap.w + init.w) * count.w <= u32::MAX && init.y
                + gap.h + (gap.h + init.h) * count.h <= u32::MAX,
        ensures
            self is Whole ==> r@ =~= seq![
                RectXYWH { x: 0, y: 0, w: whole.w, h: whole.h },
            ],
            self matches ImageLoad::Tiled { init, gap, count } ==> r@.len() == count.w * count.h
                && (forall|v: int|
                0 <= v < r@.len() ==> #[trigger] r@[v] == spec_tile(
                    init,
                    gap,
                    v % (count.w as int),
                    v / (count.w as int),
                )),
            self matches ImageLoad::Atlas(data) ==> r == data,
    {
        match self {
            ImageLoad::Whole => {
                let mut r: Vec<RectXYWH> = Vec::new();
                r.push(whole.to_xywh());
                r
            },
            ImageLoad::Tiled { init, gap, count } => {
                let cells = rect_idx(count);
                let mut r: Vec<RectXYWH> = Vec::new();
                let mut v: usize = 0;
                proof {
                    assert forall|j: int| 0 <= j < cells@.len() implies #[trigger] cells@[j].w
                        < count.w && cells@[j].h <= count.h by {
                        assert(cells@[j] == (RectWH {
                            w: (j % (count.w as int)) as u32,
                            h: (j / (count.w as int)) as u32,
                        }));
                        assert(j % (count.w as int) < count.w) by (nonlinear_arith)
                            requires
                                count.w > 0,
                        ;
                        assert(j / (count.w as int) <= count.h) by (nonlinear_arith)
                            requires
                                count.w > 0,
                                0 <= j < count.w * count.h,
                        ;
                    }
                }
                while v < cells.len()
                    invariant
                        v <= cells@.len(),
                        r@.len() == v,
                        forall|j: int|
                            0 <= j < cells@.len() ==> #[trigger] cells@[j].w < count.w
                                && cells@[j].h <= count.h,
                        forall|j: int|
                            0 <= j < v ==> #[trigger] r@[j] == spec_tile(
                                init,
                                gap,
                                j % (count.w as int),
                                j / (count.w as int),
                            ),
                    decreases cells@.len() - v,
                {
                    let cell = cells[v];
                    proof {
                        assert((gap.w + init.w) * cell.w <= (gap.w + init.w) * count.w)
                            by (nonlinear_arith)
                            requires
                                cell.w <= count.w,
                                gap.w + init.w >= 0,
                        ;
                        assert((gap.h + init.h) * cell.h <= (gap.h + init.h) * count.h)
                            by (nonlinear_arith)
                            requires
                                cell.h <= count.h,
                                gap.h + init.h >= 0,
                        ;
                    }
                    let tx: u64 = (init.x as u64) + (gap.w as u64) + ((gap.w as u64)
                        + (init.w as u64)) * (cell.w as u64);
                    let ty: u64 = (init.y as u64) + (gap.h as u64) + ((gap.h as u64)
                        + (init.h as u64)) * (cell.h as u64);
                    proof {
                        assert(((gap.w as u64) + (init.w as u64)) * (cell.w as u64) == (gap.w
                            + init.w) * cell.w) by (nonlinear_arith);
                        assert(((gap.h as u64) + (init.h as u64)) * (cell.h as u64) == (gap.h
                            + init.h) * cell.h) by (nonlinear_arith);
                    }
                    r.push(
                        RectXYWH::new(tx as u32, ty as u32, init.w, init.h),
                    );
                    v = v + 1;
                }
                r
            },
            ImageLoad::Atlas(data) => data,
        }
    }
}

} // verus!
