//! Byte strings. Chart text is read as bytes; these are the few string
//! operations that the readers need, each with its meaning on `Seq<u8>`.

use vstd::prelude::*;

verus! {

/// Horizontal tab.
pub const TAB: u8 = 9;

/// Line feed.
pub const NEWLINE: u8 = 10;

/// Carriage return.
pub const CARRIAGE_RETURN: u8 = 13;

/// Space.
pub const SPACE: u8 = 32;

/// ASCII white space: tab, line feed, vertical tab, form feed, carriage
/// return and space.
pub open spec fn is_space(b: u8) -> bool {
    9 <= b <= 13 || b == 32
}

/// A string of white space only; the empty string is blank.
pub open spec fn is_blank(s: Seq<u8>) -> bool {
    forall|i: int| 0 <= i < s.len() ==> is_space(#[trigger] s[i])
}

/// The position of the first `b` in `s`, or the length of `s` where there
/// is none.
pub open spec fn first_of(s: Seq<u8>, b: u8) -> nat
    decreases s.len(),
{
    if s.len() == 0 || s[0] == b {
        0
    } else {
        1 + first_of(s.drop_first(), b)
    }
}

/// The pieces of `s` between occurrences of `sep`. There is always at
/// least one piece; a separator at the end leaves an empty last piece.
pub open spec fn split(s: Seq<u8>, sep: u8) -> Seq<Seq<u8>>
    decreases s.len(),
{
    let i = first_of(s, sep) as int;
    if i >= s.len() {
        seq![s]
    } else {
        seq![s.subrange(0, i)] + split(s.subrange(i + 1, s.len() as int), sep)
    }
}

/// `s` without the white space at its end.
pub open spec fn trim_end(s: Seq<u8>) -> Seq<u8>
    decreases s.len(),
{
    if s.len() > 0 && is_space(s.last()) {
        trim_end(s.drop_last())
    } else {
        s
    }
}

/// `s` without the white space at its start.
pub open spec fn trim_start(s: Seq<u8>) -> Seq<u8>
    decreases s.len(),
{
    if s.len() > 0 && is_space(s[0]) {
        trim_start(s.drop_first())
    } else {
        s
    }
}

/// `s` without the white space at either end.
pub open spec fn trim(s: Seq<u8>) -> Seq<u8> {
    trim_start(trim_end(s))
}

/// `s` without its last byte; the empty string stays empty.
pub open spec fn chop(s: Seq<u8>) -> Seq<u8> {
    if s.len() == 0 {
        s
    } else {
        s.drop_last()
    }
}

/// `s` without one carriage return at its end, if it has one.
pub open spec fn strip_cr(s: Seq<u8>) -> Seq<u8> {
    if s.len() > 0 && s.last() == CARRIAGE_RETURN {
        s.drop_last()
    } else {
        s
    }
}

/// The contents of a list of borrowed byte strings.
pub open spec fn views(v: Seq<&[u8]>) -> Seq<Seq<u8>> {
    v.map_values(|p: &[u8]| p@)
}

/// `first_of` is the least position that holds `b`.
pub proof fn lemma_first_of(s: Seq<u8>, b: u8)
    ensures
        first_of(s, b) <= s.len(),
        forall|j: int| 0 <= j < first_of(s, b) ==> s[j] != b,
        first_of(s, b) < s.len() ==> s[first_of(s, b) as int] == b,
    decreases s.len(),
{
    if s.len() == 0 || s[0] == b {
    } else {
        let t = s.drop_first();
        lemma_first_of(t, b);
        assert forall|j: int| 0 <= j < first_of(s, b) implies s[j] != b by {
            if j > 0 {
                assert(s[j] == t[j - 1]);
            }
        }
        if first_of(s, b) < s.len() {
            assert(s[first_of(s, b) as int] == t[first_of(t, b) as int]);
        }
    }
}

/// A position that holds `b`, or the end, with no `b` before it is
/// `first_of`.
pub proof fn lemma_first_of_is(s: Seq<u8>, b: u8, i: int)
    requires
        0 <= i <= s.len(),
        forall|j: int| 0 <= j < i ==> s[j] != b,
        i == s.len() || s[i] == b,
    ensures
        first_of(s, b) == i,
{
    lemma_first_of(s, b);
    let f = first_of(s, b) as int;
    if f < i {
        assert(s[f] == b);
    } else if f > i {
        assert(s[i] != b);
    }
}

/// A string without the separator is its own single piece.
pub proof fn lemma_split_none(s: Seq<u8>, sep: u8)
    requires
        forall|j: int| 0 <= j < s.len() ==> s[j] != sep,
    ensures
        split(s, sep) == seq![s],
{
    lemma_first_of_is(s, sep, s.len() as int);
}

/// The first piece ends at the first separator; the rest is split on.
pub proof fn lemma_split_at(s: Seq<u8>, sep: u8, i: int)
    requires
        0 <= i < s.len(),
        forall|j: int| 0 <= j < i ==> s[j] != sep,
        s[i] == sep,
    ensures
        split(s, sep) == seq![s.subrange(0, i)] + split(s.subrange(i + 1, s.len() as int), sep),
{
    lemma_first_of_is(s, sep, i);
}

/// There is always a first piece.
pub proof fn lemma_split_nonempty(s: Seq<u8>, sep: u8)
    ensures
        split(s, sep).len() >= 1,
        split(s, sep)[0] == s.subrange(0, first_of(s, sep) as int),
        forall|j: int| 0 <= j < split(s, sep)[0].len() ==> split(s, sep)[0][j] != sep,
{
    lemma_first_of(s, sep);
    let i = first_of(s, sep) as int;
    if i >= s.len() {
        assert(s.subrange(0, i) =~= s);
    }
}

/// Splitting a text made of two parts: the pieces of the first part, with
/// the first piece of the second part joined to the last of them, and then
/// the remaining pieces of the second part.
pub proof fn lemma_split_concat(a: Seq<u8>, b: Seq<u8>, sep: u8)
    ensures
        split(a, sep).len() >= 1,
        split(b, sep).len() >= 1,
        split(a + b, sep) == split(a, sep).drop_last() + seq![
            split(a, sep).last() + split(b, sep)[0],
        ] + split(b, sep).drop_first(),
    decreases a.len(),
{
    lemma_first_of(a, sep);
    lemma_first_of(b, sep);
    lemma_split_nonempty(a, sep);
    lemma_split_nonempty(b, sep);
    let i = first_of(a, sep) as int;
    let j = first_of(b, sep) as int;
    let ab = a + b;
    if i >= a.len() {
        assert(split(a, sep) =~= seq![a]);
        assert forall|k: int| 0 <= k < a.len() + j implies ab[k] != sep by {
            if k >= a.len() {
                assert(ab[k] == b[k - a.len()]);
            }
        }
        if j >= b.len() {
            lemma_split_none(ab, sep);
            assert(split(b, sep) =~= seq![b]);
            assert(split(ab, sep) =~= split(a, sep).drop_last() + seq![
                split(a, sep).last() + split(b, sep)[0],
            ] + split(b, sep).drop_first());
        } else {
            assert(ab[a.len() + j] == b[j]);
            lemma_split_at(ab, sep, a.len() + j);
            assert(ab.subrange(0, a.len() + j) =~= a + b.subrange(0, j));
            assert(ab.subrange(a.len() + j + 1, ab.len() as int) =~= b.subrange(
                j + 1,
                b.len() as int,
            ));
            assert(split(ab, sep) =~= split(a, sep).drop_last() + seq![
                split(a, sep).last() + split(b, sep)[0],
            ] + split(b, sep).drop_first());
        }
    } else {
        let rest = a.subrange(i + 1, a.len() as int);
        lemma_split_concat(rest, b, sep);
        assert forall|k: int| 0 <= k < i implies ab[k] != sep by {
            assert(ab[k] == a[k]);
        }
        assert(ab[i] == a[i]);
        lemma_split_at(ab, sep, i);
        assert(ab.subrange(0, i) =~= a.subrange(0, i));
        assert(ab.subrange(i + 1, ab.len() as int) =~= rest + b);
        assert(split(ab, sep) =~= split(a, sep).drop_last() + seq![
            split(a, sep).last() + split(b, sep)[0],
        ] + split(b, sep).drop_first());
    }
}

/// Reports whether every byte of `s` is white space.
pub fn is_blank_bytes(s: &[u8]) -> (r: bool)
    ensures
        r == is_blank(s@),
{
    let mut i: usize = 0;
    while i < s.len()
        invariant
            i <= s.len(),
            forall|j: int| 0 <= j < i ==> is_space(#[trigger] s@[j]),
        decreases s.len() - i,
    {
        let b: u8 = s[i];
        if !((9 <= b && b <= 13) || b == SPACE) {
            return false;
        }
        i += 1;
    }
    true
}

/// Reports whether two byte strings are equal.
pub fn bytes_eq(a: &[u8], b: &[u8]) -> (r: bool)
    ensures
        r == (a@ == b@),
{
    if a.len() != b.len() {
        return false;
    }
    let mut i: usize = 0;
    while i < a.len()
        invariant
            i <= a.len(),
            a.len() == b.len(),
            forall|j: int| 0 <= j < i ==> a@[j] == b@[j],
        decreases a.len() - i,
    {
        if a[i] != b[i] {
            return false;
        }
        i += 1;
    }
    assert(a@ =~= b@);
    true
}

/// Reports whether `s` begins with `prefix`.
pub fn starts_with(s: &[u8], prefix: &[u8]) -> (r: bool)
    ensures
        r == prefix@.is_prefix_of(s@),
{
    if prefix.len() > s.len() {
        return false;
    }
    let mut i: usize = 0;
    while i < prefix.len()
        invariant
            i <= prefix.len() <= s.len(),
            forall|j: int| 0 <= j < i ==> s@[j] == prefix@[j],
        decreases prefix.len() - i,
    {
        if s[i] != prefix[i] {
            return false;
        }
        i += 1;
    }
    true
}

/// Cuts `s` at every `sep`.
pub fn split_bytes<'a>(s: &'a [u8], sep: u8) -> (parts: Vec<&'a [u8]>)
    ensures
        views(parts@) == split(s@, sep),
{
    let mut parts: Vec<&[u8]> = Vec::new();
    let mut start: usize = 0;
    let mut i: usize = 0;
    assert(s@.subrange(0, s@.len() as int) =~= s@);
    assert(views(parts@) =~= Seq::<Seq<u8>>::empty());
    while i < s.len()
        invariant
            start <= i <= s.len(),
            forall|j: int| start <= j < i ==> s@[j] != sep,
            split(s@, sep) == views(parts@) + split(
                s@.subrange(start as int, s@.len() as int),
                sep,
            ),
        decreases s.len() - i,
    {
        if s[i] == sep {
            let ghost tail = s@.subrange(start as int, s@.len() as int);
            let ghost before = views(parts@);
            proof {
                lemma_split_at(tail, sep, i - start);
                assert(tail.subrange(0, i - start) =~= s@.subrange(start as int, i as int));
                assert(tail.subrange(i - start + 1, tail.len() as int) =~= s@.subrange(
                    i + 1,
                    s@.len() as int,
                ));
            }
            let piece: &[u8] = &s[start..i];
            parts.push(piece);
            assert(views(parts@) =~= before + seq![piece@]);
            start = i + 1;
        }
        i += 1;
    }
    let ghost tail = s@.subrange(start as int, s@.len() as int);
    let ghost before = views(parts@);
    proof {
        lemma_split_none(tail, sep);
    }
    parts.push(&s[start..s.len()]);
    assert(views(parts@) =~= before + seq![tail]);
    parts
}

/// `s` without the white space at its end.
pub fn trim_end_bytes<'a>(s: &'a [u8]) -> (r: &'a [u8])
    ensures
        r@ == trim_end(s@),
{
    let mut end: usize = s.len();
    assert(s@.subrange(0, end as int) =~= s@);
    while end > 0 && ((9 <= s[end - 1] && s[end - 1] <= 13) || s[end - 1] == SPACE)
        invariant
            end <= s.len(),
            trim_end(s@) == trim_end(s@.subrange(0, end as int)),
        decreases end,
    {
        assert(s@.subrange(0, end as int).drop_last() =~= s@.subrange(0, end - 1));
        end -= 1;
    }
    &s[0..end]
}

/// `s` without the white space at its start.
pub fn trim_start_bytes<'a>(s: &'a [u8]) -> (r: &'a [u8])
    ensures
        r@ == trim_start(s@),
{
    let mut start: usize = 0;
    assert(s@.subrange(0, s@.len() as int) =~= s@);
    while start < s.len() && ((9 <= s[start] && s[start] <= 13) || s[start] == SPACE)
        invariant
            start <= s.len(),
            trim_start(s@) == trim_start(s@.subrange(start as int, s@.len() as int)),
        decreases s.len() - start,
    {
        assert(s@.subrange(start as int, s@.len() as int).drop_first() =~= s@.subrange(
            start + 1,
            s@.len() as int,
        ));
        start += 1;
    }
    &s[start..s.len()]
}

/// `s` without the white space at either end.
pub fn trim_bytes<'a>(s: &'a [u8]) -> (r: &'a [u8])
    ensures
        r@ == trim(s@),
{
    trim_start_bytes(trim_end_bytes(s))
}

/// `s` without its last byte.
pub fn chop_bytes<'a>(s: &'a [u8]) -> (r: &'a [u8])
    ensures
        r@ == chop(s@),
{
    if s.len() == 0 {
        s
    } else {
        &s[0..s.len() - 1]
    }
}

/// `s` without one carriage return at its end.
pub fn strip_cr_bytes<'a>(s: &'a [u8]) -> (r: &'a [u8])
    ensures
        r@ == strip_cr(s@),
{
    if s.len() > 0 && s[s.len() - 1] == CARRIAGE_RETURN {
        &s[0..s.len() - 1]
    } else {
        s
    }
}

/// A copy of `s` that owns its bytes.
pub fn to_vec(s: &[u8]) -> (v: Vec<u8>)
    ensures
        v@ == s@,
{
    let mut v: Vec<u8> = Vec::new();
    let mut i: usize = 0;
    while i < s.len()
        invariant
            i <= s.len(),
            v@ == s@.subrange(0, i as int),
        decreases s.len() - i,
    {
        v.push(s[i]);
        assert(v@ =~= s@.subrange(0, i + 1));
        i += 1;
    }
    assert(s@.subrange(0, s@.len() as int) =~= s@);
    v
}

/// Appends the bytes of `s` to `out`.
pub fn append_bytes(out: &mut Vec<u8>, s: &[u8])
    ensures
        final(out)@ == old(out)@ + s@,
{
    let mut i: usize = 0;
    assert(out@ =~= old(out)@ + s@.subrange(0, 0));
    while i < s.len()
        invariant
            i <= s.len(),
            out@ == old(out)@ + s@.subrange(0, i as int),
        decreases s.len() - i,
    {
        out.push(s[i]);
        assert(out@ =~= old(out)@ + s@.subrange(0, i + 1));
        i += 1;
    }
    assert(s@.subrange(0, s@.len() as int) =~= s@);
}

} // verus!
