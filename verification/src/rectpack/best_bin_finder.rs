//! The shrinking search for a good bin: repeatedly try to pack every
//! rectangle of an ordering into a candidate bin, shrinking the candidate
//! while everything fits and growing it back when something does not,
//! halving the step as the search narrows.
use vstd::prelude::*;
use crate::rectpack::empty_spaces::EmptySpaces;
use crate::rectpack::finders_interface::DiscardStep;
use crate::rectpack::rect_structs::{RectWH, RectXYWH};

verus! {

/// Which bin dimensions a search pass shrinks.
#[derive(Debug, Clone, Copy, PartialEq, Eq, Structural)]
pub enum BinDimension {
    Both,
    Width,
    Height,
}

/// The outcome of a search pass: the smallest bin found, or, when not
/// even the starting bin held everything, the total area that fit.
#[derive(Debug, Clone, Copy, PartialEq, Eq, Structural)]
pub enum BestPackingForOrderingResult {
    TotalArea(u32),
    Rect(RectWH),
}

/// The summed areas of the first `k` rectangles of an ordering.
pub open spec fn sum_area(rects: Seq<RectXYWH>, order: Seq<usize>, k: int) -> int
    decreases k,
{
    if k <= 0 {
        0
    } else {
        sum_area(rects, order, k - 1) + rects[order[k - 1] as int].w * rects[order[k - 1] as int].h
    }
}

/// Partial area sums grow with the count.
proof fn lemma_sum_area_mono(rects: Seq<RectXYWH>, order: Seq<usize>, a: int, b: int)
    requires
        a <= b,
    ensures
        sum_area(rects, order, a) <= sum_area(rects, order, b),
    decreases b - a,
{
    if a < b {
        lemma_sum_area_mono(rects, order, a, b - 1);
    }
}

/// A bound a search pass promises of the bin it returns, relative to the
/// starting bin.
pub open spec fn bin_within(bin: RectWH, starting: RectWH, tried: BinDimension) -> bool {
    match tried {
        BinDimension::Both => bin.w * bin.h <= starting.w * starting.h,
        BinDimension::Width => bin.w <= starting.w && bin.h == starting.h,
        BinDimension::Height => bin.h <= starting.h && bin.w == starting.w,
    }
}

/// One search pass over one ordering and one shrink dimension.
#[verifier::loop_isolation(false)]
#[verifier::rlimit(100)]
pub fn best_packing_for_ordering_impl(
    root: &mut EmptySpaces,
    rects: &Vec<RectXYWH>,
    order: &Vec<usize>,
    starting_bin: RectWH,
    discard_step: DiscardStep,
    tried_dimension: BinDimension,
) -> (res: BestPackingForOrderingResult)
    requires
        old(root).wf(),
        starting_bin.w <= 0x20000000,
        starting_bin.h <= 0x20000000,
        forall|j: int| 0 <= j < order@.len() ==> #[trigger] order@[j] < rects@.len(),
        sum_area(rects@, order@, order@.len() as int) <= u32::MAX,
        discard_step matches DiscardStep::Step(s) ==> s >= 1,
    ensures
        final(root).wf(),
        res matches BestPackingForOrderingResult::Rect(bin) ==> bin_within(
            bin,
            starting_bin,
            tried_dimension,
        ) && bin.w <= starting_bin.w + starting_bin.h && bin.h <= starting_bin.w
            + starting_bin.h,
{
    let ghost bw = starting_bin.w as int;
    let ghost bh = starting_bin.h as int;
    let mut candidate_bin = starting_bin;
    let (discard_step, mut tries_before_discarding): (u32, u32) = match discard_step {
        DiscardStep::Step(step) => (step, 0),
        DiscardStep::Tries(tries) => (1, tries),
    };
    let starting_step: u32 = match tried_dimension {
        BinDimension::Both => {
            candidate_bin.w = candidate_bin.w / 2;
            candidate_bin.h = candidate_bin.h / 2;
            candidate_bin.w / 2
        },
        BinDimension::Width => {
            candidate_bin.w = candidate_bin.w / 2;
            candidate_bin.w / 2
        },
        BinDimension::Height => {
            candidate_bin.h = candidate_bin.h / 2;
            candidate_bin.h / 2
        },
    };
    proof {
        assert(candidate_bin.w * candidate_bin.h <= bw * bh) by (nonlinear_arith)
            requires
                candidate_bin.w <= bw,
                candidate_bin.h <= bh,
                0 <= candidate_bin.w,
                0 <= candidate_bin.h,
        ;
    }
    let mut step = starting_step;
    loop
        invariant
            root.wf(),
            discard_step >= 1,
            step <= 0x10000000,
            candidate_bin.w <= bw + bh,
            candidate_bin.h <= bw + bh,
            candidate_bin.w <= candidate_bin.h + bw,
            candidate_bin.h <= candidate_bin.w + bh,
            tried_dimension is Both ==> candidate_bin.w * candidate_bin.h <= bw * bh,
            tried_dimension is Width ==> candidate_bin.w <= bw && candidate_bin.h
                == starting_bin.h,
            tried_dimension is Height ==> candidate_bin.h <= bh && candidate_bin.w
                == starting_bin.w,
        decreases
            (if step == 0 {
                1int
            } else {
                0int
            }),
            step,
            tries_before_discarding,
            (match tried_dimension {
                BinDimension::Both => bw * bh - candidate_bin.w * candidate_bin.h,
                BinDimension::Width => bw - candidate_bin.w,
                BinDimension::Height => bh - candidate_bin.h,
            }),
    {
        let ghost pre_bin = candidate_bin;
        root.reset(candidate_bin);
        let mut total_inserted_area: u32 = 0;
        let mut all_inserted = true;
        let mut k: usize = 0;
        while k < order.len()
            invariant
                root.wf(),
                k <= order@.len(),
                all_inserted ==> total_inserted_area == sum_area(rects@, order@, k as int),
                !all_inserted ==> total_inserted_area <= sum_area(rects@, order@, k as int),
            decreases order@.len() - k,
        {
            let rect = rects[order[k]];
            proof {
                lemma_sum_area_mono(rects@, order@, k + 1, order@.len() as int);
                assert(sum_area(rects@, order@, k + 1) == sum_area(rects@, order@, k as int)
                    + rects@[order@[k as int] as int].w * rects@[order@[k as int] as int].h);
            }
            match root.insert(rect) {
                Some(_) => {
                    total_inserted_area = total_inserted_area + rect.w * rect.h;
                },
                None => {
                    all_inserted = false;
                },
            }
            k = k + 1;
        }
        if all_inserted {
            if step <= discard_step {
                if tries_before_discarding > 0 {
                    tries_before_discarding = tries_before_discarding - 1;
                } else {
                    return BestPackingForOrderingResult::Rect(candidate_bin);
                }
            }
            match tried_dimension {
                BinDimension::Both => {
                    if step <= candidate_bin.w && step <= candidate_bin.h {
                        candidate_bin.w = candidate_bin.w - step;
                        candidate_bin.h = candidate_bin.h - step;
                    } else {
                        candidate_bin.w = 0;
                        candidate_bin.h = 0;
                    }
                    proof {
                        assert(candidate_bin.w * candidate_bin.h <= pre_bin.w * pre_bin.h)
                            by (nonlinear_arith)
                            requires
                                candidate_bin.w <= pre_bin.w,
                                candidate_bin.h <= pre_bin.h,
                        ;
                    }
                },
                BinDimension::Width => {
                    if step <= candidate_bin.w {
                        candidate_bin.w = candidate_bin.w - step;
                    } else {
                        candidate_bin.w = 0;
                    }
                },
                BinDimension::Height => {
                    if step <= candidate_bin.h {
                        candidate_bin.h = candidate_bin.h - step;
                    } else {
                        candidate_bin.h = 0;
                    }
                },
            }
        } else {
            let exceeded = match tried_dimension {
                BinDimension::Both => {
                    candidate_bin.w = candidate_bin.w + step;
                    candidate_bin.h = candidate_bin.h + step;
                    proof {
                        assert((candidate_bin.w as u64) * (candidate_bin.h as u64) <= 0x80000000
                            * 0x80000000) by (nonlinear_arith)
                            requires
                                candidate_bin.w <= 0x80000000,
                                candidate_bin.h <= 0x80000000,
                        ;
                        assert((starting_bin.w as u64) * (starting_bin.h as u64) <= 0x80000000
                            * 0x80000000) by (nonlinear_arith)
                            requires
                                starting_bin.w <= 0x80000000,
                                starting_bin.h <= 0x80000000,
                        ;
                    }
                    (candidate_bin.w as u64) * (candidate_bin.h as u64) > (starting_bin.w as u64)
                        * (starting_bin.h as u64)
                },
                BinDimension::Width => {
                    candidate_bin.w = candidate_bin.w + step;
                    candidate_bin.w > starting_bin.w
                },
                BinDimension::Height => {
                    candidate_bin.h = candidate_bin.h + step;
                    candidate_bin.h > starting_bin.h
                },
            };
            if exceeded {
                return BestPackingForOrderingResult::TotalArea(total_inserted_area);
            }
            proof {
                if tried_dimension is Both && step >= 1 {
                    assert(candidate_bin.w * candidate_bin.h >= pre_bin.w * pre_bin.h + 1)
                        by (nonlinear_arith)
                        requires
                            candidate_bin.w == pre_bin.w + step,
                            candidate_bin.h == pre_bin.h + step,
                            step >= 1,
                            pre_bin.w >= 0,
                            pre_bin.h >= 0,
                    ;
                }
                if tried_dimension is Both {
                    let w = candidate_bin.w as int;
                    let h = candidate_bin.h as int;
                    assert(w <= bw + bh && h <= bw + bh) by (nonlinear_arith)
                        requires
                            w * h <= bw * bh,
                            w <= h + bw,
                            h <= w + bh,
                            0 <= w,
                            0 <= h,
                            0 <= bw,
                            0 <= bh,
                    ;
                }
            }
        }
        step = if step / 2 >= 1 {
            step / 2
        } else {
            1
        };
    }
}

/// The best packing of one ordering: shrink both dimensions first, then
/// try to shave each dimension alone, keeping whatever improves the bin.
pub fn best_packing_for_ordering(
    root: &mut EmptySpaces,
    rects: &Vec<RectXYWH>,
    order: &Vec<usize>,
    starting_bin: RectWH,
    discard_step: DiscardStep,
) -> (res: BestPackingForOrderingResult)
    requires
        old(root).wf(),
        starting_bin.w <= 0x10000000,
        starting_bin.h <= 0x10000000,
        forall|j: int| 0 <= j < order@.len() ==> #[trigger] order@[j] < rects@.len(),
        sum_area(rects@, order@, order@.len() as int) <= u32::MAX,
        discard_step matches DiscardStep::Step(s) ==> s >= 1,
    ensures
        final(root).wf(),
        res matches BestPackingForOrderingResult::Rect(bin) ==> bin.w * bin.h <= starting_bin.w
            * starting_bin.h && bin.w <= starting_bin.w + starting_bin.h && bin.h
            <= starting_bin.w + starting_bin.h,
{
    let best_result = best_packing_for_ordering_impl(
        root,
        rects,
        order,
        starting_bin,
        discard_step,
        BinDimension::Both,
    );
    let mut best_bin = match best_result {
        BestPackingForOrderingResult::Rect(rect) => rect,
        // if nothing fit even the starting bin, give up at once
        other => {
            return other;
        },
    };
    match best_packing_for_ordering_impl(
        root,
        rects,
        order,
        best_bin,
        discard_step,
        BinDimension::Width,
    ) {
        BestPackingForOrderingResult::Rect(rect) => {
            proof {
                assert(rect.w * rect.h <= best_bin.w * best_bin.h) by (nonlinear_arith)
                    requires
                        rect.w <= best_bin.w,
                        rect.h == best_bin.h,
                ;
            }
            best_bin = rect;
        },
        _ => {},
    }
    match best_packing_for_ordering_impl(
        root,
        rects,
        order,
        best_bin,
        discard_step,
        BinDimension::Height,
    ) {
        BestPackingForOrderingResult::Rect(rect) => {
            proof {
                assert(rect.w * rect.h <= best_bin.w * best_bin.h) by (nonlinear_arith)
                    requires
                        rect.h <= best_bin.h,
                        rect.w == best_bin.w,
                ;
            }
            best_bin = rect;
        },
        _ => {},
    }
    BestPackingForOrderingResult::Rect(best_bin)
}

} // verus!
