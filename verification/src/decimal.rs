//! Decimal numbers in chart text.
//!
//! A number is an optional sign, digits, and optionally a point and more
//! digits, with at least one digit in all: `12`, `-0.5`, `+3.`, `.25`.
//! Exponents are not part of the grammar. A number is kept to three places
//! after the point; further digits are checked and dropped.

use vstd::prelude::*;
use crate::text::{first_of, lemma_first_of, lemma_first_of_is, NEWLINE, TAB};

verus! {

/// `+`
pub const PLUS: u8 = 43;

/// `-`
pub const MINUS: u8 = 45;

/// `.`
pub const DOT: u8 = 46;

/// `0`
pub const DIGIT_ZERO: u8 = 48;

/// A parsed number: its sign, the part before the point and the first three
/// places after it.
#[derive(Debug, Clone, Copy, PartialEq, Eq)]
pub struct Decimal {
    pub negative: bool,
    pub whole: u64,
    pub thousandths: u16,
}

/// The ASCII digits.
pub open spec fn is_digit(b: u8) -> bool {
    48 <= b <= 57
}

/// A string of digits only; the empty string is one.
pub open spec fn all_digits(s: Seq<u8>) -> bool {
    forall|i: int| 0 <= i < s.len() ==> is_digit(#[trigger] s[i])
}

/// The number that a string of digits writes; the empty string writes 0.
pub open spec fn digits_value(s: Seq<u8>) -> nat
    decreases s.len(),
{
    if s.len() == 0 {
        0
    } else {
        digits_value(s.drop_last()) * 10 + (s.last() - 48) as nat
    }
}

/// The digit at place `i` after the point, 0 where the string is shorter.
pub open spec fn digit_at(s: Seq<u8>, i: int) -> nat {
    if 0 <= i < s.len() {
        (s[i] - 48) as nat
    } else {
        0
    }
}

/// The first three places after the point, as a count of thousandths.
pub open spec fn thousandths_of(frac: Seq<u8>) -> nat {
    digit_at(frac, 0) * 100 + digit_at(frac, 1) * 10 + digit_at(frac, 2)
}

/// The text starts with a sign.
pub open spec fn has_sign(s: Seq<u8>) -> bool {
    s.len() > 0 && (s[0] == PLUS || s[0] == MINUS)
}

/// The text after the sign.
pub open spec fn unsigned_part(s: Seq<u8>) -> Seq<u8> {
    if has_sign(s) {
        s.drop_first()
    } else {
        s
    }
}

/// The digits before the point.
pub open spec fn whole_digits(s: Seq<u8>) -> Seq<u8> {
    let body = unsigned_part(s);
    body.subrange(0, first_of(body, DOT) as int)
}

/// The text after the first point; empty where there is no point.
pub open spec fn frac_digits(s: Seq<u8>) -> Seq<u8> {
    let body = unsigned_part(s);
    let dot = first_of(body, DOT) as int;
    if dot < body.len() {
        body.subrange(dot + 1, body.len() as int)
    } else {
        Seq::empty()
    }
}

/// The grammar of a number.
pub open spec fn is_decimal(s: Seq<u8>) -> bool {
    &&& all_digits(whole_digits(s))
    &&& all_digits(frac_digits(s))
    &&& whole_digits(s).len() + frac_digits(s).len() > 0
}

/// The number that `s` writes: `None` where `s` is not a number or its
/// whole part does not fit in 64 bits.
pub open spec fn decimal_of(s: Seq<u8>) -> Option<Decimal> {
    if is_decimal(s) && digits_value(whole_digits(s)) <= u64::MAX {
        Some(
            Decimal {
                negative: s[0] == MINUS,
                whole: digits_value(whole_digits(s)) as u64,
                thousandths: thousandths_of(frac_digits(s)) as u16,
            },
        )
    } else {
        None
    }
}

/// The digits of a natural number, without leading zeros.
pub open spec fn digits_of(n: nat) -> Seq<u8>
    decreases n,
{
    if n < 10 {
        seq![(48 + n) as u8]
    } else {
        digits_of(n / 10).push((48 + n % 10) as u8)
    }
}

/// An integer as text: a minus sign where it is negative, then its digits.
pub open spec fn integer_text(v: int) -> Seq<u8> {
    if v < 0 {
        seq![MINUS] + digits_of((-v) as nat)
    } else {
        digits_of(v as nat)
    }
}

impl Decimal {
    /// The places after the point are a count of thousandths.
    pub open spec fn wf(self) -> bool {
        self.thousandths < 1000
    }

    /// The number with its fraction dropped.
    pub open spec fn truncated(self) -> int {
        if self.negative {
            -(self.whole as int)
        } else {
            self.whole as int
        }
    }

    /// The number in thousandths.
    pub open spec fn millis(self) -> int {
        if self.negative {
            -(self.whole * 1000 + self.thousandths)
        } else {
            self.whole * 1000 + self.thousandths
        }
    }

    /// The number with its fraction dropped, where that fits in an `i64`.
    pub fn to_whole(&self) -> (r: Option<i64>)
        ensures
            r == if i64::MIN <= self.truncated() <= i64::MAX {
                Some(self.truncated() as i64)
            } else {
                None
            },
    {
        if self.negative {
            if self.whole <= 0x8000_0000_0000_0000 {
                Some((-(self.whole as i128)) as i64)
            } else {
                None
            }
        } else {
            if self.whole <= 0x7fff_ffff_ffff_ffff {
                Some(self.whole as i64)
            } else {
                None
            }
        }
    }

    /// The number in thousandths, where that fits in an `i64`.
    pub fn to_millis(&self) -> (r: Option<i64>)
        ensures
            r == if i64::MIN <= self.millis() <= i64::MAX {
                Some(self.millis() as i64)
            } else {
                None
            },
    {
        let magnitude: i128 = self.whole as i128 * 1000 + self.thousandths as i128;
        let signed: i128 = if self.negative {
            -magnitude
        } else {
            magnitude
        };
        if -0x8000_0000_0000_0000 <= signed && signed <= 0x7fff_ffff_ffff_ffff {
            Some(signed as i64)
        } else {
            None
        }
    }
}

/// A longer string of digits writes a number that is no smaller.
pub proof fn lemma_digits_value_grows(s: Seq<u8>, k: int)
    requires
        all_digits(s),
        0 <= k <= s.len(),
    ensures
        digits_value(s.subrange(0, k)) <= digits_value(s),
    decreases s.len() - k,
{
    if k == s.len() {
        assert(s.subrange(0, k) =~= s);
    } else {
        lemma_digits_value_grows(s, k + 1);
        assert(s.subrange(0, k + 1).drop_last() =~= s.subrange(0, k));
        assert(is_digit(s[k]));
    }
}

/// The digits of a number are digits, do not start a sign or hold a point,
/// and write that number.
pub proof fn lemma_digits_of(n: nat)
    ensures
        digits_of(n).len() >= 1,
        all_digits(digits_of(n)),
        digits_value(digits_of(n)) == n,
    decreases n,
{
    if n < 10 {
        assert(digits_of(n).drop_last() =~= Seq::<u8>::empty());
        assert(digits_value(Seq::<u8>::empty()) == 0);
        assert(digits_of(n).last() == (48 + n) as u8);
    } else {
        lemma_digits_of(n / 10);
        assert(digits_of(n).drop_last() =~= digits_of(n / 10));
        assert(digits_of(n).last() == (48 + n % 10) as u8);
        assert(digits_value(digits_of(n)) == digits_value(digits_of(n / 10)) * 10 + n % 10);
    }
}

/// Reading back the text of an integer gives that integer, with no
/// fraction.
pub proof fn lemma_integer_text_read_back(v: int)
    requires
        -0x1_0000_0000_0000_0000 < v < 0x1_0000_0000_0000_0000,
    ensures
        decimal_of(integer_text(v)) == Some(
            Decimal {
                negative: v < 0,
                whole: (if v < 0 {
                    -v
                } else {
                    v
                }) as u64,
                thousandths: 0,
            },
        ),
        all_digits(unsigned_part(integer_text(v))),
        forall|i: int|
            0 <= i < integer_text(v).len() ==> #[trigger] integer_text(v)[i] != TAB && integer_text(
                v,
            )[i] != NEWLINE,
        integer_text(v).len() >= 1,
{
    let n = (if v < 0 {
        -v
    } else {
        v
    }) as nat;
    let s = integer_text(v);
    lemma_digits_of(n);
    let body = unsigned_part(s);
    assert(is_digit(digits_of(n)[0]));
    if v < 0 {
        assert(s[0] == MINUS);
        assert(body =~= digits_of(n));
    } else {
        assert(s[0] == digits_of(n)[0]);
        assert(body =~= digits_of(n));
    }
    assert forall|j: int| 0 <= j < body.len() implies body[j] != DOT by {
        assert(is_digit(body[j]));
    }
    lemma_first_of_is(body, DOT, body.len() as int);
    assert(whole_digits(s) =~= body);
    assert(frac_digits(s) =~= Seq::<u8>::empty());
    assert forall|i: int| 0 <= i < s.len() implies #[trigger] s[i] != TAB && s[i] != NEWLINE by {
        if v < 0 {
            if i > 0 {
                assert(s[i] == body[i - 1]);
                assert(is_digit(body[i - 1]));
            }
        } else {
            assert(is_digit(body[i]));
        }
    }
}

/// Where the text after the sign has no point up to and including place
/// `i`, the whole part reaches beyond `i`.
proof fn lemma_no_point_before(s: Seq<u8>, start: int, i: int)
    requires
        0 <= start <= i < s.len(),
        unsigned_part(s) == s.subrange(start, s.len() as int),
        forall|j: int| start <= j <= i ==> s[j] != DOT,
    ensures
        first_of(unsigned_part(s), DOT) > i - start,
        whole_digits(s).len() > i - start,
        whole_digits(s)[i - start] == s[i],
        whole_digits(s).subrange(0, i + 1 - start) =~= s.subrange(start, i + 1),
{
    let body = unsigned_part(s);
    lemma_first_of(body, DOT);
    let dot = first_of(body, DOT) as int;
    if dot <= i - start {
        assert(body[dot] == s[start + dot]);
    }
}

/// Reads a number.
pub fn parse_decimal(s: &[u8]) -> (r: Option<Decimal>)
    ensures
        r == decimal_of(s@),
        r matches Some(d) ==> d.wf(),
{
    let len: usize = s.len();
    let mut i: usize = 0;
    let mut negative: bool = false;
    if len > 0 && (s[0] == PLUS || s[0] == MINUS) {
        negative = s[0] == MINUS;
        i = 1;
    }
    let start: usize = i;
    let ghost body = unsigned_part(s@);
    assert(body =~= s@.subrange(start as int, len as int));
    let mut whole: u64 = 0;
    assert(s@.subrange(start as int, start as int) =~= Seq::<u8>::empty());
    while i < len && s[i] != DOT
        invariant
            start <= i <= len,
            len == s@.len(),
            body == s@.subrange(start as int, len as int),
            body == unsigned_part(s@),
            forall|j: int| start <= j < i ==> is_digit(#[trigger] s@[j]),
            whole == digits_value(s@.subrange(start as int, i as int)),
        decreases len - i,
    {
        let b: u8 = s[i];
        let ghost prefix = s@.subrange(start as int, i as int);
        let ghost next = s@.subrange(start as int, i + 1);
        assert(next.drop_last() =~= prefix);
        if b < DIGIT_ZERO || b > 57 {
            proof {
                lemma_no_point_before(s@, start as int, i as int);
                assert(whole_digits(s@)[i - start] == s@[i as int]);
            }
            return None;
        }
        let digit: u64 = (b - DIGIT_ZERO) as u64;
        if whole > (u64::MAX - digit) / 10 {
            proof {
                assert(digits_value(next) > u64::MAX);
                if is_decimal(s@) {
                    lemma_no_point_before(s@, start as int, i as int);
                    let w = whole_digits(s@);
                    assert(w.subrange(0, i + 1 - start) =~= next);
                    lemma_digits_value_grows(w, i + 1 - start);
                }
            }
            return None;
        }
        whole = whole * 10 + digit;
        i += 1;
    }
    let whole_len: usize = i - start;
    proof {
        assert forall|j: int| 0 <= j < i - start implies body[j] != DOT by {
            assert(is_digit(s@[start + j]));
        }
        lemma_first_of_is(body, DOT, i - start);
        assert(whole_digits(s@) =~= s@.subrange(start as int, i as int));
    }
    let mut places: u16 = 0;
    let mut frac_len: usize = 0;
    if i < len {
        let frac_start: usize = i + 1;
        let ghost frac = frac_digits(s@);
        assert(frac =~= s@.subrange(frac_start as int, len as int));
        let mut k: usize = frac_start;
        while k < len
            invariant
                frac_start <= k <= len,
                len == s@.len(),
                frac == s@.subrange(frac_start as int, len as int),
                frac == frac_digits(s@),
                forall|j: int| frac_start <= j < k ==> is_digit(#[trigger] s@[j]),
                places == (if k - frac_start >= 1 {
                    digit_at(frac, 0) * 100
                } else {
                    0
                }) + (if k - frac_start >= 2 {
                    digit_at(frac, 1) * 10
                } else {
                    0
                }) + (if k - frac_start >= 3 {
                    digit_at(frac, 2)
                } else {
                    0
                }),
            decreases len - k,
        {
            let b: u8 = s[k];
            if b < DIGIT_ZERO || b > 57 {
                assert(frac[k - frac_start] == s@[k as int]);
                return None;
            }
            assert(frac[k - frac_start] == s@[k as int]);
            let digit: u16 = (b - DIGIT_ZERO) as u16;
            let place: usize = k - frac_start;
            if place == 0 {
                places = places + digit * 100;
            } else if place == 1 {
                places = places + digit * 10;
            } else if place == 2 {
                places = places + digit;
            }
            k += 1;
        }
        frac_len = len - frac_start;
        assert forall|j: int| 0 <= j < frac.len() implies is_digit(#[trigger] frac[j]) by {
            assert(frac[j] == s@[frac_start + j]);
        }
    } else {
        assert(frac_digits(s@) =~= Seq::<u8>::empty());
    }
    if whole_len == 0 && frac_len == 0 {
        return None;
    }
    Some(Decimal { negative, whole, thousandths: places })
}

/// Appends the digits of `n` to `out`.
pub fn push_digits(out: &mut Vec<u8>, n: u64)
    ensures
        final(out)@ == old(out)@ + digits_of(n as nat),
    decreases n,
{
    if n < 10 {
        out.push(DIGIT_ZERO + n as u8);
        assert(out@ =~= old(out)@ + digits_of(n as nat));
    } else {
        push_digits(out, n / 10);
        out.push(DIGIT_ZERO + (n % 10) as u8);
        assert(out@ =~= old(out)@ + digits_of(n as nat));
    }
}

/// Appends an integer as text to `out`.
pub fn push_integer(out: &mut Vec<u8>, v: i64)
    ensures
        final(out)@ == old(out)@ + integer_text(v as int),
{
    if v < 0 {
        out.push(MINUS);
        let n: u64 = (-(v as i128)) as u64;
        push_digits(out, n);
        assert(out@ =~= old(out)@ + integer_text(v as int));
    } else {
        push_digits(out, v as u64);
    }
}

} // verus!
