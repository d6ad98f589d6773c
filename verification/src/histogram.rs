//! The histogram of the timing errors of a run.
//!
//! The window `[-tolerance, tolerance]` is cut into bins of equal width.
//! The order is inverted: an early input, whose error is positive, falls
//! left of the centre and a late one right of it.

use vstd::prelude::*;

verus! {

/// `error` limited to the window.
pub open spec fn within(error: int, tolerance: int) -> int {
    if error > tolerance {
        tolerance
    } else if error < -tolerance {
        -tolerance
    } else {
        error
    }
}

/// The bin of an error among `bins` bins: the distance of the error from
/// the early end of the window, as a share of the width of the window,
/// times the number of bins and rounded down. The late end of the window
/// itself belongs to the last bin. Without a window every error falls
/// into the middle bin.
pub open spec fn bin_of(error: int, tolerance: int, bins: int) -> int {
    if tolerance <= 0 {
        bins / 2
    } else {
        let place = ((tolerance - within(error, tolerance)) * bins) / (2 * tolerance);
        if place >= bins {
            bins - 1
        } else {
            place
        }
    }
}

/// Falling into bin `bin`, as a predicate on errors.
pub open spec fn falls_into(tolerance: u32, bins: usize, bin: int) -> spec_fn(i64) -> bool {
    |error: i64| bin_of(error as int, tolerance as int, bins as int) == bin
}

/// How many of the errors fall into bin `bin`.
pub open spec fn bin_count(errors: Seq<i64>, tolerance: u32, bins: usize, bin: int) -> nat {
    errors.filter(falls_into(tolerance, bins, bin)).len()
}

/// `counts` is the histogram of `errors`.
pub open spec fn is_histogram(counts: Seq<usize>, errors: Seq<i64>, tolerance: u32, bins: usize)
    -> bool {
    &&& counts.len() == bins
    &&& forall|b: int| 0 <= b < bins ==> #[trigger] counts[b] == bin_count(errors, tolerance, bins, b)
}

/// `highest` is the largest count: no count is larger, and some count is
/// equal to it, or there are no bins and it is 0.
pub open spec fn is_highest(counts: Seq<usize>, highest: usize) -> bool {
    &&& forall|b: int| 0 <= b < counts.len() ==> #[trigger] counts[b] <= highest
    &&& if counts.len() == 0 {
        highest == 0
    } else {
        exists|b: int| 0 <= b < counts.len() && #[trigger] counts[b] == highest
    }
}

/// Every error falls into one of the bins.
pub proof fn lemma_bin_in_range(error: int, tolerance: int, bins: int)
    requires
        bins > 0,
    ensures
        0 <= bin_of(error, tolerance, bins) < bins,
{
    if tolerance > 0 {
        let e = within(error, tolerance);
        assert((tolerance - e) * bins >= 0) by (nonlinear_arith)
            requires
                tolerance - e >= 0,
                bins > 0,
        ;
        vstd::arithmetic::div_mod::lemma_div_pos_is_pos((tolerance - e) * bins, 2 * tolerance);
    }
}

/// The bins are inverted and ordered: the earliest input falls into the
/// first bin and the latest into the last, an exact hit falls into the
/// middle bin, and of two errors the larger never falls into a later bin.
pub proof fn lemma_bins_inverted(tolerance: int, bins: int, early: int, late: int)
    requires
        tolerance > 0,
        bins > 0,
        late <= early,
    ensures
        bin_of(tolerance, tolerance, bins) == 0,
        bin_of(-tolerance, tolerance, bins) == bins - 1,
        bin_of(0, tolerance, bins) == bins / 2,
        bin_of(early, tolerance, bins) <= bin_of(late, tolerance, bins),
{
    assert(0 * bins == 0);
    assert((2 * tolerance) * bins / (2 * tolerance) == bins) by {
        vstd::arithmetic::div_mod::lemma_div_multiples_vanish(bins, 2 * tolerance);
        assert((2 * tolerance) * bins == (2 * tolerance) * bins);
    }
    assert((tolerance * bins) / (2 * tolerance) == bins / 2) by {
        vstd::arithmetic::div_mod::lemma_div_denominator(tolerance * bins, tolerance, 2);
        vstd::arithmetic::div_mod::lemma_div_multiples_vanish(bins, tolerance);
        assert(tolerance * 2 == 2 * tolerance);
    }
    assert((tolerance - (-tolerance)) * bins == (2 * tolerance) * bins);
    let e = within(early, tolerance);
    let l = within(late, tolerance);
    assert((tolerance - e) * bins <= (tolerance - l) * bins) by (nonlinear_arith)
        requires
            tolerance - e <= tolerance - l,
            bins > 0,
    ;
    vstd::arithmetic::div_mod::lemma_div_is_ordered(
        (tolerance - e) * bins,
        (tolerance - l) * bins,
        2 * tolerance,
    );
}

/// Finds the bin of an error.
pub fn error_bin(error: i64, tolerance: u32, bins: usize) -> (bin: usize)
    requires
        bins > 0,
    ensures
        bin == bin_of(error as int, tolerance as int, bins as int),
        bin < bins,
{
    proof {
        lemma_bin_in_range(error as int, tolerance as int, bins as int);
    }
    if tolerance == 0 {
        return bins / 2;
    }
    let limit: i64 = tolerance as i64;
    let inside: i64 = if error > limit {
        limit
    } else if error < -limit {
        -limit
    } else {
        error
    };
    let ahead: u128 = (limit - inside) as u128;
    assert(ahead * bins <= 0x2_0000_0000 * 0xffff_ffff_ffff_ffff) by (nonlinear_arith)
        requires
            0 <= ahead <= 0x2_0000_0000,
            0 <= bins <= 0xffff_ffff_ffff_ffff,
    ;
    let place: u128 = ahead * (bins as u128) / (2 * tolerance as u128);
    if place >= bins as u128 {
        bins - 1
    } else {
        place as usize
    }
}

/// Counts the errors of a run into `bins` bins.
pub fn error_histogram(errors: &Vec<i64>, tolerance: u32, bins: usize) -> (counts: Vec<usize>)
    ensures
        is_histogram(counts@, errors@, tolerance, bins),
{
    let mut counts: Vec<usize> = Vec::new();
    let mut b: usize = 0;
    while b < bins
        invariant
            b <= bins,
            counts@.len() == b,
            forall|k: int| 0 <= k < b ==> #[trigger] counts@[k] == 0,
        decreases bins - b,
    {
        counts.push(0);
        b += 1;
    }
    if bins == 0 {
        return counts;
    }
    let mut i: usize = 0;
    assert(errors@.subrange(0, 0) =~= Seq::<i64>::empty());
    while i < errors.len()
        invariant
            i <= errors@.len(),
            bins > 0,
            counts@.len() == bins,
            forall|k: int|
                0 <= k < bins ==> #[trigger] counts@[k] == bin_count(
                    errors@.subrange(0, i as int),
                    tolerance,
                    bins,
                    k,
                ),
        decreases errors@.len() - i,
    {
        let error: i64 = errors[i];
        let bin: usize = error_bin(error, tolerance, bins);
        let ghost before = errors@.subrange(0, i as int);
        proof {
            assert(errors@.subrange(0, i + 1) =~= before.push(error));
            assert forall|k: int| 0 <= k < bins implies bin_count(
                errors@.subrange(0, i + 1),
                tolerance,
                bins,
                k,
            ) == bin_count(before, tolerance, bins, k) + (if k == bin {
                1nat
            } else {
                0nat
            }) by {
                before.lemma_filter_push(error, falls_into(tolerance, bins, k));
            }
            before.lemma_filter_len(falls_into(tolerance, bins, bin as int));
        }
        let count: usize = counts[bin];
        counts.set(bin, count + 1);
        i += 1;
    }
    assert(errors@.subrange(0, i as int) =~= errors@);
    counts
}

/// Finds the largest count of a histogram, by which its bars are scaled.
pub fn highest_bin(counts: &Vec<usize>) -> (highest: usize)
    ensures
        is_highest(counts@, highest),
{
    let mut highest: usize = 0;
    let mut i: usize = 0;
    while i < counts.len()
        invariant
            i <= counts@.len(),
            forall|b: int| 0 <= b < i ==> #[trigger] counts@[b] <= highest,
            if i == 0 {
                highest == 0
            } else {
                exists|b: int| 0 <= b < i && #[trigger] counts@[b] == highest
            },
        decreases counts@.len() - i,
    {
        if i == 0 || counts[i] > highest {
            highest = counts[i];
        }
        i += 1;
    }
    highest
}

} // verus!
