//! A composite image: a flat RGBA byte buffer addressed row by row, with
//! rectangle copies between images.
use vstd::prelude::*;
use crate::rectpack::rect_structs::{RectWH, RectXYWH};

verus! {

/// The row-major RGBA byte index of the start of pixel `(x, y)` in an
/// image `w` pixels wide.
pub open spec fn pix(w: int, x: int, y: int) -> int {
    (y * w + x) * 4
}

/// A pixel inside an image stays inside its byte buffer.
proof fn lemma_pix_bound(w: int, h: int, x: int, s: int, y: int, k: int)
    by (nonlinear_arith)
    requires
        0 <= y < h,
        0 <= x,
        0 < s,
        x + s <= w,
        0 <= k < s * 4,
    ensures
        0 <= pix(w, x, y) + k < w * h * 4,
        0 <= y * w + x < w * h,
        w * h <= w * h * 4,
{
}

/// A flat RGBA image buffer and its size.
#[derive(Debug, Clone, PartialEq, Eq)]
pub struct CompositeImage {
    /// the pixel bytes, four per pixel, row by row
    pub data: Vec<u8>,
    /// the size in pixels
    pub size: RectWH,
}

impl CompositeImage {
    /// The buffer holds exactly four bytes per pixel.
    pub open spec fn wf(&self) -> bool {
        self.data@.len() == self.size.w * self.size.h * 4
    }

    /// A fresh image of the given size: every pixel opaque white with a
    /// cleared green channel.
    pub fn new(size: RectWH) -> (r: CompositeImage)
        requires
            size.w * size.h * 4 <= usize::MAX,
        ensures
            r.size == size,
            r.wf(),
            forall|i: int|
                0 <= i < r.data@.len() ==> r.data@[i] == (if i % 4 == 1 {
                    0u8
                } else {
                    0xFFu8
                }),
    {
        proof {
            assert(size.w * size.h <= size.w * size.h * 4) by (nonlinear_arith)
                requires
                    size.w >= 0,
                    size.h >= 0,
            ;
        }
        let area: usize = (size.w as usize) * (size.h as usize);
        let total: usize = area * 4;
        let mut data: Vec<u8> = Vec::new();
        let mut i: usize = 0;
        while i < total
            invariant
                i <= total,
                total == size.w * size.h * 4,
                data@.len() == i,
                forall|j: int|
                    0 <= j < i ==> data@[j] == (if j % 4 == 1 {
                        0u8
                    } else {
                        0xFFu8
                    }),
            decreases total - i,
        {
            if i % 4 == 1 {
                data.push(0);
            } else {
                data.push(0xFF);
            }
            i = i + 1;
        }
        CompositeImage { data, size }
    }

    /// Copy the `source` rectangle of another image into this one, its
    /// top-left corner at column `dest.w` and row `dest.h`. Exactly the
    /// destination rectangle's bytes change, to a copy of the source
    /// rectangle's bytes.
    #[verifier::loop_isolation(false)]
    #[verifier::rlimit(60)]
    pub fn copy_from(&mut self, other: &CompositeImage, source: RectXYWH, dest: RectWH)
        requires
            old(self).wf(),
            other.wf(),
            source.w > 0,
            source.x + source.w <= other.size.w,
            source.y + source.h <= other.size.h,
            dest.w + source.w <= old(self).size.w,
            dest.h + source.h <= old(self).size.h,
        ensures
            final(self).wf(),
            final(self).size == old(self).size,
            final(self).data@.len() == old(self).data@.len(),
            forall|y: int, k: int|
                0 <= y < source.h && 0 <= k < source.w * 4 ==> #[trigger] final(self).data@[pix(
                    old(self).size.w as int,
                    dest.w as int,
                    dest.h + y,
                ) + k] == other.data@[pix(
                    other.size.w as int,
                    source.x as int,
                    source.y + y,
                ) + k],
            forall|i: int|
                0 <= i < old(self).data@.len() && !copied_to(
                    i,
                    old(self).size.w as int,
                    dest,
                    source,
                    source.h as int,
                ) ==> #[trigger] final(self).data@[i] == old(self).data@[i],
    {
        let ghost origd = self.data@;
        let w: usize = self.size.w as usize;
        let ow: usize = other.size.w as usize;
        let mut y: usize = 0;
        while y < source.h as usize
            invariant
                self.size == old(self).size,
                self.data@.len() == origd.len(),
                y <= source.h,
                forall|yy: int, k: int|
                    0 <= yy < y && 0 <= k < source.w * 4 ==> #[trigger] self.data@[pix(
                        old(self).size.w as int,
                        dest.w as int,
                        dest.h + yy,
                    ) + k] == other.data@[pix(
                        other.size.w as int,
                        source.x as int,
                        source.y + yy,
                    ) + k],
                forall|i: int|
                    0 <= i < origd.len() && !copied_to(
                        i,
                        old(self).size.w as int,
                        dest,
                        source,
                        y as int,
                    ) ==> #[trigger] self.data@[i] == origd[i],
            decreases source.h - y,
        {
            proof {
                assert(vstd::std_specs::vec::spec_vec_len(&other.data) == other.data@.len());
                assert(vstd::std_specs::vec::spec_vec_len(&self.data) == self.data@.len());
                lemma_pix_bound(
                    other.size.w as int,
                    other.size.h as int,
                    source.x as int,
                    source.w as int,
                    source.y + y,
                    0,
                );
                lemma_pix_bound(
                    old(self).size.w as int,
                    old(self).size.h as int,
                    dest.w as int,
                    source.w as int,
                    dest.h + y,
                    0,
                );
            }
            let yy_s: usize = source.y as usize + y;
            let yy_d: usize = dest.h as usize + y;
            proof {
                assert(source.w * 4 <= other.data@.len()) by (nonlinear_arith)
                    requires
                        source.w <= other.size.w,
                        1 <= other.size.h,
                        other.data@.len() == other.size.w * other.size.h * 4,
                ;
                assert(yy_s == source.y + y && yy_d == dest.h + y);
                assert((yy_s as int) * (ow as int) == (source.y + y) * (ow as int));
                assert((yy_d as int) * (w as int) == (dest.h + y) * (w as int));
            }
            let row_span: usize = (source.w as usize) * 4;
            let s_row: usize = (yy_s * ow + source.x as usize) * 4;
            let d_row: usize = (yy_d * w + dest.w as usize) * 4;
            let mut k: usize = 0;
            while k < row_span
                invariant
                    k <= row_span,
                    self.size == old(self).size,
                    self.data@.len() == origd.len(),
                    forall|yy: int, kk: int|
                        0 <= yy < y && 0 <= kk < source.w * 4 ==> #[trigger] self.data@[pix(
                            old(self).size.w as int,
                            dest.w as int,
                            dest.h + yy,
                        ) + kk] == other.data@[pix(
                            other.size.w as int,
                            source.x as int,
                            source.y + yy,
                        ) + kk],
                    forall|kk: int|
                        0 <= kk < k ==> #[trigger] self.data@[pix(
                            old(self).size.w as int,
                            dest.w as int,
                            dest.h + y,
                        ) + kk] == other.data@[pix(
                            other.size.w as int,
                            source.x as int,
                            source.y + y,
                        ) + kk],
                    forall|i: int|
                        0 <= i < origd.len() && !copied_to(
                            i,
                            old(self).size.w as int,
                            dest,
                            source,
                            y as int,
                        ) && !(pix(old(self).size.w as int, dest.w as int, dest.h + y) <= i < pix(
                            old(self).size.w as int,
                            dest.w as int,
                            dest.h + y,
                        ) + k) ==> #[trigger] self.data@[i] == origd[i],
                decreases row_span - k,
            {
                proof {
                    lemma_pix_bound(
                        other.size.w as int,
                        other.size.h as int,
                        source.x as int,
                        source.w as int,
                        source.y + y,
                        k as int,
                    );
                    lemma_pix_bound(
                        old(self).size.w as int,
                        old(self).size.h as int,
                        dest.w as int,
                        source.w as int,
                        dest.h + y,
                        k as int,
                    );
                }
                let b = other.data[s_row + k];
                self.data.set(d_row + k, b);
                proof {
                    assert forall|yy: int, kk: int|
                        0 <= yy < y && 0 <= kk < source.w * 4 implies #[trigger] self.data@[pix(
                        old(self).size.w as int,
                        dest.w as int,
                        dest.h + yy,
                    ) + kk] == other.data@[pix(
                        other.size.w as int,
                        source.x as int,
                        source.y + yy,
                    ) + kk] by {
                        lemma_row_disjoint(
                            old(self).size.w as int,
                            dest.w as int,
                            dest.h as int,
                            source.w as int,
                            yy,
                            y as int,
                        );
                    }
                }
                k = k + 1;
            }
            y = y + 1;
            proof {
                assert forall|i: int|
                    0 <= i < origd.len() && !copied_to(
                        i,
                        old(self).size.w as int,
                        dest,
                        source,
                        y as int,
                    ) implies self.data@[i] == origd[i] by {
                    assert(!row_holds(i, old(self).size.w as int, dest, source, y - 1));
                }
            }
        }
    }
}

/// Earlier destination rows end before later ones begin.
proof fn lemma_row_disjoint(wid: int, dw: int, dh: int, sw: int, y1: int, y2: int)
    by (nonlinear_arith)
    requires
        0 <= dw,
        0 < sw,
        dw + sw <= wid,
        0 <= y1 < y2,
        0 <= dh,
    ensures
        pix(wid, dw, dh + y1) + sw * 4 <= pix(wid, dw, dh + y2),
{
}

/// Whether byte `i` lies in the destination row of copy row `y`.
pub open spec fn row_holds(i: int, w: int, dest: RectWH, source: RectXYWH, y: int) -> bool {
    pix(w, dest.w as int, dest.h + y) <= i < pix(w, dest.w as int, dest.h + y) + source.w * 4
}

/// Whether byte `i` lies in the destination rectangle of the first
/// `rows` copied rows.
pub open spec fn copied_to(i: int, w: int, dest: RectWH, source: RectXYWH, rows: int) -> bool {
    exists|y: int| 0 <= y < rows && #[trigger] row_holds(i, w, dest, source, y)
}

/// The pixel positions of a size, row by row: for each index below
/// `r.w * r.h`, its column and row.
pub fn rect_idx(r: RectWH) -> (out: Vec<RectWH>)
    requires
        r.w > 0,
        r.w * r.h <= u32::MAX,
    ensures
        out@.len() == r.w * r.h,
        forall|v: int|
            0 <= v < out@.len() ==> #[trigger] out@[v] == (RectWH {
                w: (v % (r.w as int)) as u32,
                h: (v / (r.w as int)) as u32,
            }),
{
    let n: u32 = r.w * r.h;
    let mut out: Vec<RectWH> = Vec::new();
    let mut v: u32 = 0;
    while v < n
        invariant
            v <= n,
            r.w > 0,
            out@.len() == v,
            forall|j: int|
                0 <= j < v ==> #[trigger] out@[j] == (RectWH {
                    w: (j % (r.w as int)) as u32,
                    h: (j / (r.w as int)) as u32,
                }),
        decreases n - v,
    {
        out.push(RectWH { w: v % r.w, h: v / r.w });
        v = v + 1;
    }
    out
}

} // verus!
