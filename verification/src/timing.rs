//! Arithmetic on times: distances, the clamped signed error and the tier of
//! an error.

use vstd::prelude::*;
use crate::note::MessageVal;

verus! {

/// The magnitude of an integer.
pub open spec fn magnitude(x: int) -> int {
    if x < 0 {
        -x
    } else {
        x
    }
}

/// The sign of an integer: -1, 0 or 1.
pub open spec fn signum(x: int) -> int {
    if x < 0 {
        -1
    } else if x == 0 {
        0
    } else {
        1
    }
}

/// The one of two numbers that lies nearer to zero; the first where both
/// are equally near.
pub open spec fn nearer_zero(num1: int, num2: int) -> int {
    if magnitude(num1) > magnitude(num2) {
        num2
    } else {
        num1
    }
}

/// `raw` limited to the window `[-tolerance, tolerance]`.
pub open spec fn clamped(raw: int, tolerance: int) -> int {
    nearer_zero(raw, tolerance * signum(raw))
}

/// Adding to a score stops at the largest value a score can hold.
pub open spec fn score_plus(score: u64, amount: int) -> u64 {
    if score + amount > u64::MAX {
        u64::MAX
    } else {
        (score + amount) as u64
    }
}

/// How many equal bands the tolerance window is divided into.
pub const TIER_BANDS: u64 = 6;

/// The tiers of a matched input, best first.
pub open spec fn tier_at(band: int) -> MessageVal {
    if band <= 0 {
        MessageVal::Perfect
    } else if band == 1 {
        MessageVal::Fantastic
    } else if band == 2 {
        MessageVal::Excellent
    } else if band == 3 {
        MessageVal::Great
    } else if band == 4 {
        MessageVal::Good
    } else if band == 5 {
        MessageVal::Mediocre
    } else {
        MessageVal::Awful
    }
}

/// The band of an error of magnitude `delay`: band 0 is an exact hit, band
/// `k` (1 to 6) holds the delays with `(k - 1) / 6 < delay / tolerance <=
/// k / 6`, and anything beyond the window counts into the last band.
pub open spec fn tier_band(delay: int, tolerance: int) -> int {
    if delay <= 0 || tolerance <= 0 {
        0
    } else if delay >= tolerance {
        TIER_BANDS as int
    } else {
        (delay * TIER_BANDS + tolerance - 1) / tolerance
    }
}

/// The tier of a matched input whose error has magnitude `delay`.
pub open spec fn tier_of(delay: int, tolerance: int) -> MessageVal {
    tier_at(tier_band(delay, tolerance))
}

/// The distance between two times.
pub fn distance(a: i64, b: i64) -> (d: u64)
    ensures
        d == magnitude(a - b),
{
    if a >= b {
        (a as i128 - b as i128) as u64
    } else {
        (b as i128 - a as i128) as u64
    }
}

/// Returns the argument that is nearer to zero, the first on a tie.
pub fn closest_to_zero(num1: i64, num2: i64) -> (r: i64)
    ensures
        r == nearer_zero(num1 as int, num2 as int),
{
    if distance(num1, 0) > distance(num2, 0) {
        num2
    } else {
        num1
    }
}

/// The signed error `target - game_time`, limited to the tolerance window.
pub fn clamp_error(target: i64, game_time: i64, tolerance: u32) -> (error: i64)
    ensures
        error == clamped(target - game_time, tolerance as int),
        magnitude(error as int) <= tolerance,
        magnitude(error as int) == if magnitude(target - game_time) < tolerance {
            magnitude(target - game_time)
        } else {
            tolerance as int
        },
{
    let raw: i128 = target as i128 - game_time as i128;
    let bound: i128 = tolerance as i128;
    if raw > bound {
        tolerance as i64
    } else if raw < -bound {
        -(tolerance as i64)
    } else {
        raw as i64
    }
}

/// Adds `amount` to a score, stopping at the largest value.
pub fn add_score(score: u64, amount: u64) -> (r: u64)
    ensures
        r == score_plus(score, amount as int),
{
    score.saturating_add(amount)
}

/// The tier of a matched input whose error has magnitude `delay`.
pub fn delay_to_message_val(delay: u64, tolerance: u32) -> (val: MessageVal)
    ensures
        val == tier_of(delay as int, tolerance as int),
{
    if delay == 0 || tolerance == 0 {
        return MessageVal::Perfect;
    }
    if delay >= tolerance as u64 {
        return MessageVal::Awful;
    }
    let band: u64 = (delay * TIER_BANDS + tolerance as u64 - 1) / (tolerance as u64);
    if band <= 1 {
        proof {
            lemma_band_positive(delay as int, tolerance as int);
        }
        MessageVal::Fantastic
    } else if band == 2 {
        MessageVal::Excellent
    } else if band == 3 {
        MessageVal::Great
    } else if band == 4 {
        MessageVal::Good
    } else if band == 5 {
        MessageVal::Mediocre
    } else {
        MessageVal::Awful
    }
}

/// Inside the window a positive delay never falls into band 0.
proof fn lemma_band_positive(delay: int, tolerance: int)
    requires
        0 < delay < tolerance,
    ensures
        tier_band(delay, tolerance) >= 1,
{
    lemma_tier_bands(delay, tolerance, tier_band(delay, tolerance));
}

/// Band `k` of the tolerance window holds exactly the delays with
/// `(k - 1) * tolerance < 6 * delay <= k * tolerance`: the window is cut
/// into six bands of equal width, each closed at its upper end.
pub proof fn lemma_tier_bands(delay: int, tolerance: int, band: int)
    requires
        0 < delay < tolerance,
    ensures
        tier_band(delay, tolerance) == band <==> (band - 1) * tolerance < delay * 6 <= band
            * tolerance,
        1 <= tier_band(delay, tolerance) <= 6,
{
    let n = delay * 6 + tolerance - 1;
    let q = n / tolerance;
    assert(tier_band(delay, tolerance) == q);
    vstd::arithmetic::div_mod::lemma_fundamental_div_mod(n, tolerance);
    vstd::arithmetic::div_mod::lemma_mod_bound(n, tolerance);
    let r = n % tolerance;
    assert(n == tolerance * q + r);
    assert((q - 1) * tolerance < delay * 6 <= q * tolerance) by (nonlinear_arith)
        requires
            delay * 6 + tolerance - 1 == tolerance * q + r,
            0 <= r < tolerance,
    ;
    if (band - 1) * tolerance < delay * 6 <= band * tolerance {
        assert(band == q) by (nonlinear_arith)
            requires
                (band - 1) * tolerance < delay * 6 <= band * tolerance,
                (q - 1) * tolerance < delay * 6 <= q * tolerance,
                tolerance > 0,
        ;
    }
    assert(1 <= q <= 6) by (nonlinear_arith)
        requires
            (q - 1) * tolerance < delay * 6 <= q * tolerance,
            0 < delay < tolerance,
    ;
}

/// Limiting an error to the window never lets its magnitude exceed the
/// tolerance, and leaves an error inside the window as it is.
pub proof fn lemma_clamped(raw: int, tolerance: int)
    requires
        tolerance >= 0,
    ensures
        magnitude(clamped(raw, tolerance)) == if magnitude(raw) < tolerance {
            magnitude(raw)
        } else {
            tolerance
        },
        magnitude(raw) <= tolerance ==> clamped(raw, tolerance) == raw,
        raw > tolerance ==> clamped(raw, tolerance) == tolerance,
        raw < -tolerance ==> clamped(raw, tolerance) == -tolerance,
{
    assert(tolerance * 1 == tolerance);
    assert(tolerance * (-1) == -tolerance);
    assert(tolerance * 0 == 0);
}

} // verus!
