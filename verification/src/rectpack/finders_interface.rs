//! The packer's entry point: try every rectangle ordering given by a set
//! of comparators, search for the best bin over each, and finally place
//! every rectangle into the winning bin.
use vstd::prelude::*;
use crate::rectpack::best_bin_finder::{
    best_packing_for_ordering, sum_area, BestPackingForOrderingResult,
};
use crate::rectpack::empty_spaces::{inserted_at, EmptySpaces};
use crate::rectpack::rect_structs::{RectWH, RectXYWH};

verus! {

/// How eagerly the search stops shaving the bin: after a number of extra
/// tries at the smallest step, or as soon as the step falls to a size.
#[derive(Debug, Clone, Copy, PartialEq, Eq, Structural)]
pub enum DiscardStep {
    Tries(u32),
    Step(u32),
}

/// The knobs of a packing run.
#[derive(Debug, Clone, Copy, PartialEq, Eq, Structural)]
pub struct FinderInput {
    /// the side of the square starting bin
    pub start_size: u32,
    /// when to stop shaving the bin
    pub discard_step: DiscardStep,
    /// whether placements may flip rectangles
    pub allow_flipping: bool,
}

/// The orderings tried while searching: each sorts the rectangles by one
/// descending measure of their size.
#[derive(Debug, Clone, Copy, PartialEq, Eq, Structural)]
pub enum RectComparator {
    /// by area
    Area,
    /// by perimeter
    Perimeter,
    /// by the longer side
    MaxSide,
    /// by width
    Width,
    /// by height
    Height,
}

/// The orderings tried by default, largest-first by several measures.
pub fn default_comparators() -> (r: Vec<RectComparator>)
    ensures
        r@ =~= seq![
            RectComparator::Area,
            RectComparator::Perimeter,
            RectComparator::MaxSide,
            RectComparator::Width,
            RectComparator::Height,
        ],
{
    let mut r: Vec<RectComparator> = Vec::new();
    r.push(RectComparator::Area);
    r.push(RectComparator::Perimeter);
    r.push(RectComparator::MaxSide);
    r.push(RectComparator::Width);
    r.push(RectComparator::Height);
    r
}

/// The sort key a comparator reads from a rectangle.
pub open spec fn spec_sort_key(c: RectComparator, r: RectXYWH) -> int {
    match c {
        RectComparator::Area => r.w * r.h,
        RectComparator::Perimeter => 2 * (r.w + r.h),
        RectComparator::MaxSide => if r.h > r.w {
            r.h as int
        } else {
            r.w as int
        },
        RectComparator::Width => r.w as int,
        RectComparator::Height => r.h as int,
    }
}

/// The sort key a comparator reads from a rectangle.
fn sort_key(c: RectComparator, r: &RectXYWH) -> (k: u64)
    ensures
        k == spec_sort_key(c, *r),
{
    proof {
        assert((r.w as u64) * (r.h as u64) <= 0xFFFFFFFF * 0xFFFFFFFF) by (nonlinear_arith)
            requires
                r.w <= 0xFFFFFFFF,
                r.h <= 0xFFFFFFFF,
        ;
    }
    match c {
        RectComparator::Area => (r.w as u64) * (r.h as u64),
        RectComparator::Perimeter => 2 * ((r.w as u64) + (r.h as u64)),
        RectComparator::MaxSide => if r.h > r.w {
            r.h as u64
        } else {
            r.w as u64
        },
        RectComparator::Width => r.w as u64,
        RectComparator::Height => r.h as u64,
    }
}

/// The identity ordering over `n` rectangles.
fn identity_order(n: usize) -> (r: Vec<usize>)
    ensures
        r@ =~= Seq::new(n as nat, |i: int| i as usize),
{
    let mut r: Vec<usize> = Vec::new();
    let mut i: usize = 0;
    while i < n
        invariant
            i <= n,
            r@ =~= Seq::new(i as nat, |k: int| k as usize),
        decreases n - i,
    {
        r.push(i);
        i = i + 1;
        assert(r@ =~= Seq::new(i as nat, |k: int| k as usize));
    }
    r
}

/// Orderings that agree below `n` carry the same area sum up to `n`.
proof fn lemma_sum_area_agree(rects: Seq<RectXYWH>, o1: Seq<usize>, o2: Seq<usize>, n: int)
    requires
        forall|i: int| 0 <= i < n ==> o1[i] == o2[i],
    ensures
        sum_area(rects, o1, n) == sum_area(rects, o2, n),
    decreases n,
{
    if n > 0 {
        lemma_sum_area_agree(rects, o1, o2, n - 1);
    }
}

/// Exchanging two neighbouring entries of an ordering keeps its area sum.
proof fn lemma_sum_area_swap(rects: Seq<RectXYWH>, o1: Seq<usize>, o2: Seq<usize>, j: int, n: int)
    requires
        0 < j < o1.len(),
        o1.len() == o2.len(),
        o2[j - 1] == o1[j],
        o2[j] == o1[j - 1],
        forall|i: int| 0 <= i < o1.len() && i != j - 1 && i != j ==> o1[i] == o2[i],
        j < n <= o1.len(),
    ensures
        sum_area(rects, o1, n) == sum_area(rects, o2, n),
    decreases n,
{
    reveal_with_fuel(sum_area, 3);
    if n - 1 > j {
        lemma_sum_area_swap(rects, o1, o2, j, n - 1);
    } else {
        lemma_sum_area_agree(rects, o1, o2, j - 1);
    }
}

/// Sort an index ordering by descending sort key of the rectangles it
/// points at, by insertion. The result is a rearrangement of the given
/// ordering, so it keeps its length, its index validity and its area sum.
fn sort_order(order: &mut Vec<usize>, rects: &Vec<RectXYWH>, comparator: RectComparator)
    requires
        forall|j: int| 0 <= j < old(order)@.len() ==> #[trigger] old(order)@[j] < rects@.len(),
    ensures
        final(order)@.len() == old(order)@.len(),
        forall|j: int| 0 <= j < final(order)@.len() ==> #[trigger] final(order)@[j] < rects@.len(),
        sum_area(rects@, final(order)@, final(order)@.len() as int) == sum_area(
            rects@,
            old(order)@,
            old(order)@.len() as int,
        ),
{
    let n = order.len();
    let mut i: usize = 1;
    while i < n
        invariant
            n == order@.len(),
            forall|j: int| 0 <= j < order@.len() ==> #[trigger] order@[j] < rects@.len(),
            sum_area(rects@, order@, order@.len() as int) == sum_area(
                rects@,
                old(order)@,
                old(order)@.len() as int,
            ),
        decreases n - i,
    {
        let mut j: usize = i;
        while j > 0
            invariant
                j <= i < n,
                n == order@.len(),
                forall|k: int| 0 <= k < order@.len() ==> #[trigger] order@[k] < rects@.len(),
                sum_area(rects@, order@, order@.len() as int) == sum_area(
                    rects@,
                    old(order)@,
                    old(order)@.len() as int,
                ),
            ensures
                n == order@.len(),
                forall|k: int| 0 <= k < order@.len() ==> #[trigger] order@[k] < rects@.len(),
                sum_area(rects@, order@, order@.len() as int) == sum_area(
                    rects@,
                    old(order)@,
                    old(order)@.len() as int,
                ),
            decreases j,
        {
            let a = order[j - 1];
            let b = order[j];
            if sort_key(comparator, &rects[a]) < sort_key(comparator, &rects[b]) {
                let ghost before = order@;
                order.set(j - 1, b);
                order.set(j, a);
                proof {
                    lemma_sum_area_swap(rects@, before, order@, j as int, n as int);
                }
                j = j - 1;
            } else {
                break;
            }
        }
        i = i + 1;
    }
}

/// Pack every rectangle. Each comparator's ordering is searched for the
/// bin of least area; the rectangles are then placed into the winning
/// bin, their positions written back in place, and the bounding box of
/// the placements is returned. Sizes are never changed: every rectangle
/// keeps its width and height, placed or not. When no ordering fits
/// everything even in the starting bin, nothing is placed at all.
#[verifier::loop_isolation(false)]
pub fn find_best_packing(
    subjects: &mut Vec<RectXYWH>,
    input: FinderInput,
    comparators: &Vec<RectComparator>,
) -> (res: Option<RectWH>)
    requires
        input.start_size <= 0x10000000,
        sum_area(
            old(subjects)@,
            Seq::new(old(subjects)@.len(), |i: int| i as usize),
            old(subjects)@.len() as int,
        ) <= u32::MAX,
        input.discard_step matches DiscardStep::Step(s) ==> s >= 1,
    ensures
        final(subjects)@.len() == old(subjects)@.len(),
        forall|i: int|
            0 <= i < old(subjects)@.len() ==> #[trigger] final(subjects)@[i].w == old(
                subjects,
            )@[i].w,
        forall|i: int|
            0 <= i < old(subjects)@.len() ==> #[trigger] final(subjects)@[i].h == old(
                subjects,
            )@[i].h,
{
    let ghost orig = old(subjects)@;
    let max_bin = RectWH { w: input.start_size, h: input.start_size };
    let mut best_order: Option<Vec<usize>> = None;
    let mut best_total_inserted: u32 = 0;
    let mut best_bin = max_bin;
    let mut root = EmptySpaces::new();
    let mut ci: usize = 0;
    while ci < comparators.len()
        invariant
            root.wf(),
            *subjects == *old(subjects),
            best_bin.w <= 0x20000000,
            best_bin.h <= 0x20000000,
            best_order matches Some(ord) ==> ord@.len() == subjects@.len() && (forall|j: int|
                0 <= j < ord@.len() ==> #[trigger] ord@[j] < subjects@.len()) && sum_area(
                subjects@,
                ord@,
                ord@.len() as int,
            ) <= u32::MAX,
        decreases comparators.len() - ci,
    {
        let comparator = comparators[ci];
        let mut order = identity_order(subjects.len());
        sort_order(&mut order, subjects, comparator);
        match best_packing_for_ordering(&mut root, subjects, &order, max_bin, input.discard_step) {
            BestPackingForOrderingResult::TotalArea(total_inserted) => {
                if best_order.is_none() && total_inserted > best_total_inserted {
                    best_total_inserted = total_inserted;
                }
            },
            BestPackingForOrderingResult::Rect(result_bin) => {
                proof {
                    assert((result_bin.w as u64) * (result_bin.h as u64) <= 0x80000000
                        * 0x80000000) by (nonlinear_arith)
                        requires
                            result_bin.w <= 0x80000000,
                            result_bin.h <= 0x80000000,
                    ;
                    assert((best_bin.w as u64) * (best_bin.h as u64) <= 0x80000000 * 0x80000000)
                        by (nonlinear_arith)
                        requires
                            best_bin.w <= 0x80000000,
                            best_bin.h <= 0x80000000,
                    ;
                }
                // <= here keeps the last ordering that ties on area
                let br = (result_bin.w as u64) * (result_bin.h as u64);
                let bb = (best_bin.w as u64) * (best_bin.h as u64);
                if br <= bb {
                    best_order = Some(order);
                    best_bin = result_bin;
                }
            },
        }
        ci = ci + 1;
    }
    let best_order = match best_order {
        Some(v) => v,
        None => {
            return None;
        },
    };
    root.reset(best_bin);
    let mut k: usize = 0;
    while k < best_order.len()
        invariant
            root.wf(),
            subjects@.len() == orig.len(),
            best_order@.len() == orig.len(),
            forall|j: int| 0 <= j < best_order@.len() ==> #[trigger] best_order@[j] < orig.len(),
            forall|i: int| 0 <= i < orig.len() ==> #[trigger] subjects@[i].w == orig[i].w,
            forall|i: int| 0 <= i < orig.len() ==> #[trigger] subjects@[i].h == orig[i].h,
        decreases best_order@.len() - k,
    {
        let idx = best_order[k];
        let rect = subjects[idx];
        let ghost pre_root = root;
        match root.insert(rect) {
            Some(res) => {
                proof {
                    let gi = choose|i: int| inserted_at(pre_root, rect, res, root, i);
                    assert(res.w == rect.w && res.h == rect.h);
                }
                subjects.set(idx, res);
            },
            None => {
                return None;
            },
        }
        k = k + 1;
    }
    Some(root.current_aabb)
}

} // verus!
