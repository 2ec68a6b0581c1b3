//! Small verified helpers on byte slices shared across the library.

use vstd::prelude::*;

verus! {

/// Index of the first byte of `s` satisfying `p`, or `s.len()` if none does.
pub open spec fn first_where(s: Seq<u8>, p: spec_fn(u8) -> bool) -> int
    decreases s.len(),
{
    if s.len() == 0 {
        0
    } else if p(s[0]) {
        0
    } else {
        1 + first_where(s.skip(1), p)
    }
}

/// `first_where` is the least index whose byte satisfies `p`, and is in range.
pub proof fn lemma_first_where(s: Seq<u8>, p: spec_fn(u8) -> bool)
    ensures
        0 <= first_where(s, p) <= s.len(),
        forall|j: int| 0 <= j < first_where(s, p) ==> !p(s[j]),
        first_where(s, p) < s.len() ==> p(s[first_where(s, p)]),
    decreases s.len(),
{
    if s.len() > 0 && !p(s[0]) {
        lemma_first_where(s.skip(1), p);
        assert forall|j: int| 0 <= j < first_where(s, p) implies !p(s[j]) by {
            if j > 0 {
                assert(s.skip(1)[j - 1] == s[j]);
            }
        }
        if first_where(s, p) < s.len() {
            assert(s.skip(1)[first_where(s, p) - 1] == s[first_where(s, p)]);
        }
    }
}

/// First index at or after `from` holding byte `b`, or `s.len()` if none does.
pub fn find_from(s: &[u8], from: usize, b: u8) -> (r: usize)
    requires
        from <= s@.len(),
    ensures
        from <= r <= s@.len(),
        forall|j: int| from <= j < r ==> s@[j] != b,
        r < s@.len() ==> s@[r as int] == b,
{
    let mut i: usize = from;
    while i < s.len()
        invariant
            from <= i <= s@.len(),
            forall|j: int| from <= j < i ==> s@[j] != b,
        decreases s@.len() - i,
    {
        if s[i] == b {
            return i;
        }
        i += 1;
    }
    i
}

/// Whether `p` is a prefix of `a`.
pub open spec fn is_prefix_of(p: Seq<u8>, a: Seq<u8>) -> bool {
    p.len() <= a.len() && a.subrange(0, p.len() as int) == p
}

/// Prefix test on byte slices.
pub fn starts_with(a: &[u8], p: &[u8]) -> (r: bool)
    ensures
        r <==> is_prefix_of(p@, a@),
{
    if p.len() > a.len() {
        return false;
    }
    let mut i: usize = 0;
    while i < p.len()
        invariant
            i <= p@.len() <= a@.len(),
            forall|j: int| 0 <= j < i ==> a@[j] == p@[j],
        decreases p@.len() - i,
    {
        if a[i] != p[i] {
            assert(a@.subrange(0, p@.len() as int)[i as int] != p@[i as int]);
            return false;
        }
        i += 1;
    }
    proof {
        assert(a@.subrange(0, p@.len() as int) =~= p@);
    }
    true
}

/// Byte-wise equality of two slices.
pub fn bytes_eq(a: &[u8], b: &[u8]) -> (r: bool)
    ensures
        r <==> a@ == b@,
{
    if a.len() != b.len() {
        assert(a@ != b@) by {
            assert(a@.len() != b@.len());
        }
        return false;
    }
    let mut i: usize = 0;
    while i < a.len()
        invariant
            i <= a.len(),
            a.len() == b.len(),
            forall|j: int| 0 <= j < i ==> a@[j] == b@[j],
        decreases a.len() - i,
    {
        if a[i] != b[i] {
            return false;
        }
        i += 1;
    }
    proof {
        assert(a@ =~= b@);
    }
    true
}

/// Whether every byte is ASCII and none is the escape byte.
pub open spec fn is_plain_ascii(s: Seq<u8>) -> bool {
    forall|i: int| 0 <= i < s.len() ==> s[i] < 128 && s[i] != 27
}

/// Whether `needle` occurs as a contiguous run inside `hay`.
pub open spec fn appears_contiguously(needle: Seq<u8>, hay: Seq<u8>) -> bool {
    exists|k: int|
        0 <= k && k + needle.len() <= hay.len() && #[trigger] hay.subrange(k, k + needle.len())
            == needle
}

/// ASCII whitespace, as trimmed from progress lines.
pub open spec fn is_ascii_ws(b: u8) -> bool {
    b == 32 || (9 <= b && b <= 13)
}

/// `s` with leading ASCII whitespace removed.
pub open spec fn spec_trim_start(s: Seq<u8>) -> Seq<u8>
    decreases s.len(),
{
    if s.len() > 0 && is_ascii_ws(s[0]) {
        spec_trim_start(s.skip(1))
    } else {
        s
    }
}

/// Length of `s` once trailing ASCII whitespace is removed.
pub open spec fn spec_trim_end_len(s: Seq<u8>) -> int
    decreases s.len(),
{
    if s.len() > 0 && is_ascii_ws(s[s.len() - 1]) {
        spec_trim_end_len(s.drop_last())
    } else {
        s.len() as int
    }
}

/// `s` with leading and trailing ASCII whitespace removed.
pub open spec fn spec_trim(s: Seq<u8>) -> Seq<u8> {
    let t = spec_trim_start(s);
    t.take(spec_trim_end_len(t))
}

/// `spec_trim_start` drops exactly the leading whitespace run.
pub proof fn lemma_trim_start(s: Seq<u8>)
    ensures
        spec_trim_start(s) == s.skip(first_where(s, |b: u8| !is_ascii_ws(b))),
    decreases s.len(),
{
    let p = |b: u8| !is_ascii_ws(b);
    if s.len() > 0 && is_ascii_ws(s[0]) {
        lemma_trim_start(s.skip(1));
        lemma_first_where(s.skip(1), p);
        assert(s.skip(1).skip(first_where(s.skip(1), p)) =~= s.skip(
            1 + first_where(s.skip(1), p),
        ));
    } else {
        assert(s.skip(0) =~= s);
    }
}

/// `spec_trim_end_len` marks the end of the last non-whitespace byte, so that
/// everything past it is whitespace.
pub proof fn lemma_trim_end_len(s: Seq<u8>)
    ensures
        0 <= spec_trim_end_len(s) <= s.len(),
        forall|j: int| spec_trim_end_len(s) <= j < s.len() ==> is_ascii_ws(s[j]),
        spec_trim_end_len(s) > 0 ==> !is_ascii_ws(s[spec_trim_end_len(s) - 1]),
    decreases s.len(),
{
    if s.len() > 0 && is_ascii_ws(s[s.len() - 1]) {
        lemma_trim_end_len(s.drop_last());
        assert forall|j: int| spec_trim_end_len(s) <= j < s.len() implies is_ascii_ws(s[j]) by {
            if j < s.len() - 1 {
                assert(s.drop_last()[j] == s[j]);
            }
        }
        if spec_trim_end_len(s) > 0 {
            assert(s.drop_last()[spec_trim_end_len(s) - 1] == s[spec_trim_end_len(s) - 1]);
        }
    }
}

/// ASCII whitespace test on one byte.
pub fn is_ws_byte(b: u8) -> (r: bool)
    ensures
        r == is_ascii_ws(b),
{
    b == 32 || (9 <= b && b <= 13)
}

/// Copy of `line` with leading and trailing ASCII whitespace removed.
pub fn trim_ascii(line: &[u8]) -> (r: Vec<u8>)
    ensures
        r@ == spec_trim(line@),
{
    let mut lo: usize = 0;
    while lo < line.len() && is_ws_byte(line[lo])
        invariant
            lo <= line@.len(),
            forall|j: int| 0 <= j < lo ==> is_ascii_ws(line@[j]),
        decreases line@.len() - lo,
    {
        lo += 1;
    }
    let mut hi: usize = line.len();
    while hi > lo && is_ws_byte(line[hi - 1])
        invariant
            lo <= hi <= line@.len(),
            forall|j: int| hi <= j < line@.len() ==> is_ascii_ws(line@[j]),
        decreases hi,
    {
        hi -= 1;
    }
    proof {
        let p = |b: u8| !is_ascii_ws(b);
        lemma_first_where(line@, p);
        lemma_trim_start(line@);
        let f = first_where(line@, p);
        assert(f == lo as int);
        let t = spec_trim_start(line@);
        lemma_trim_end_len(t);
        let e = spec_trim_end_len(t);
        assert forall|j: int| (hi - lo) <= j < t.len() implies is_ascii_ws(t[j]) by {
            assert(t[j] == line@[lo + j]);
        }
        if hi > lo {
            assert(t[hi - lo - 1] == line@[hi - 1]);
        }
        assert(e == hi - lo) by {
            if e < hi - lo {
                assert(is_ascii_ws(t[hi - lo - 1]));
            }
            if e > hi - lo {
                assert(!is_ascii_ws(t[e - 1]));
                assert(t[e - 1] == line@[lo + e - 1]);
            }
        }
        assert(t.take(e) =~= line@.subrange(lo as int, hi as int));
    }
    vstd::slice::slice_to_vec(&line[lo..hi])
}

/// Whether some element of `hay` holds exactly the bytes of `needle`.
pub fn contains_bytes(hay: &Vec<Vec<u8>>, needle: &[u8]) -> (r: bool)
    ensures
        r <==> exists|i: int| 0 <= i < hay@.len() && hay@[i]@ == needle@,
{
    let mut i: usize = 0;
    while i < hay.len()
        invariant
            i <= hay@.len(),
            forall|j: int| 0 <= j < i ==> hay@[j]@ != needle@,
        decreases hay@.len() - i,
    {
        if bytes_eq(hay[i].as_slice(), needle) {
            return true;
        }
        i += 1;
    }
    false
}

} // verus!
