//! Byte-string helpers shared by the parsers: whitespace, trimming, tokens
//! and decimal rendering.
use vstd::prelude::*;

verus! {

/// ASCII whitespace: tab, line feed, vertical tab, form feed, carriage
/// return and space.
pub open spec fn is_space(b: u8) -> bool {
    b == 9u8 || b == 10u8 || b == 11u8 || b == 12u8 || b == 13u8 || b == 32u8
}

/// The first index at or after `i` that does not hold whitespace (or the
/// length).
pub open spec fn skip_space(s: Seq<u8>, i: int) -> int
    decreases s.len() - i,
{
    if 0 <= i < s.len() && is_space(s[i]) {
        skip_space(s, i + 1)
    } else {
        i
    }
}

/// The first index at or after `i` that holds whitespace (or the length).
pub open spec fn token_end(s: Seq<u8>, i: int) -> int
    decreases s.len() - i,
{
    if 0 <= i < s.len() && !is_space(s[i]) {
        token_end(s, i + 1)
    } else {
        i
    }
}

/// Moving down from `j` to `lo`, the index just past the last byte that is
/// not whitespace.
pub open spec fn trim_back(s: Seq<u8>, lo: int, j: int) -> int
    decreases j - lo,
{
    if lo < j && j <= s.len() && is_space(s[j - 1]) {
        trim_back(s, lo, j - 1)
    } else {
        j
    }
}

/// `s` without leading and trailing whitespace.
pub open spec fn trim_spec(s: Seq<u8>) -> Seq<u8> {
    let a = skip_space(s, 0);
    s.subrange(a, trim_back(s, a, s.len() as int))
}

/// The first whitespace-delimited token of `s` at or after index `i` (empty
/// when there is none).
pub open spec fn token_from(s: Seq<u8>, i: int) -> Seq<u8> {
    let a = skip_space(s, i);
    s.subrange(a, token_end(s, a))
}

pub fn is_space_byte(b: u8) -> (r: bool)
    ensures
        r == is_space(b),
{
    b == 9u8 || b == 10u8 || b == 11u8 || b == 12u8 || b == 13u8 || b == 32u8
}

/// The index of the first byte at or after `i` that is not whitespace.
pub fn skip_space_from(s: &[u8], i: usize) -> (r: usize)
    requires
        i <= s@.len(),
    ensures
        r == skip_space(s@, i as int),
        i <= r <= s@.len(),
{
    let mut k = i;
    while k < s.len() && is_space_byte(s[k])
        invariant
            i <= k <= s@.len(),
            skip_space(s@, k as int) == skip_space(s@, i as int),
        decreases s@.len() - k,
    {
        k = k + 1;
    }
    k
}

/// The index of the first whitespace byte at or after `i`.
pub fn token_end_from(s: &[u8], i: usize) -> (r: usize)
    requires
        i <= s@.len(),
    ensures
        r == token_end(s@, i as int),
        i <= r <= s@.len(),
{
    let mut k = i;
    while k < s.len() && !is_space_byte(s[k])
        invariant
            i <= k <= s@.len(),
            token_end(s@, k as int) == token_end(s@, i as int),
        decreases s@.len() - k,
    {
        k = k + 1;
    }
    k
}

/// A copy of the bytes `s[lo..hi]`.
pub fn copy_range(s: &[u8], lo: usize, hi: usize) -> (r: Vec<u8>)
    requires
        lo <= hi <= s@.len(),
    ensures
        r@ == s@.subrange(lo as int, hi as int),
{
    let mut r: Vec<u8> = Vec::new();
    let mut k = lo;
    while k < hi
        invariant
            lo <= k <= hi <= s@.len(),
            r@ == s@.subrange(lo as int, k as int),
        decreases hi - k,
    {
        r.push(s[k]);
        k = k + 1;
        assert(r@ =~= s@.subrange(lo as int, k as int));
    }
    r
}

/// `s` without leading and trailing whitespace.
pub fn trim(s: &[u8]) -> (r: Vec<u8>)
    ensures
        r@ == trim_spec(s@),
{
    let a = skip_space_from(s, 0);
    let mut j = s.len();
    while a < j && is_space_byte(s[j - 1])
        invariant
            a <= j <= s@.len(),
            trim_back(s@, a as int, j as int) == trim_back(s@, a as int, s@.len() as int),
        decreases j,
    {
        j = j - 1;
    }
    copy_range(s, a, j)
}

/// The first whitespace-delimited token at or after index `i`.
pub fn token_at(s: &[u8], i: usize) -> (r: Vec<u8>)
    requires
        i <= s@.len(),
    ensures
        r@ == token_from(s@, i as int),
{
    let a = skip_space_from(s, i);
    let b = token_end_from(s, a);
    copy_range(s, a, b)
}

/// The decimal digits of `n`, most significant first, with no leading zero.
pub open spec fn decimal(n: nat) -> Seq<u8>
    decreases n,
{
    if n < 10 {
        seq![(48 + n) as u8]
    } else {
        decimal(n / 10).push((48 + n % 10) as u8)
    }
}

/// Renders `n` in decimal.
pub fn decimal_bytes(n: usize) -> (r: Vec<u8>)
    ensures
        r@ == decimal(n as nat),
    decreases n,
{
    if n < 10 {
        let d: u8 = 48u8 + n as u8;
        let mut r: Vec<u8> = Vec::new();
        r.push(d);
        assert(r@ =~= seq![(48 + n) as u8]);
        r
    } else {
        let mut r = decimal_bytes(n / 10);
        let d: u8 = 48u8 + (n % 10) as u8;
        r.push(d);
        r
    }
}

/// Appends the bytes of `b` to `a`.
pub fn append_bytes(a: &mut Vec<u8>, b: &[u8])
    ensures
        final(a)@ == old(a)@ + b@,
{
    let mut k: usize = 0;
    let ghost start = a@;
    while k < b.len()
        invariant
            k <= b@.len(),
            a@ == start + b@.subrange(0, k as int),
        decreases b@.len() - k,
    {
        a.push(b[k]);
        k = k + 1;
        assert(a@ =~= start + b@.subrange(0, k as int));
    }
    assert(b@.subrange(0, b@.len() as int) =~= b@);
}

} // verus!

verus! {

/// Appends the bytes `b[lo..hi]` to `a`.
pub fn append_range(a: &mut Vec<u8>, b: &[u8], lo: usize, hi: usize)
    requires
        lo <= hi <= b@.len(),
    ensures
        final(a)@ == old(a)@ + b@.subrange(lo as int, hi as int),
{
    let mut k: usize = lo;
    let ghost start = a@;
    while k < hi
        invariant
            lo <= k <= hi <= b@.len(),
            a@ == start + b@.subrange(lo as int, k as int),
        decreases hi - k,
    {
        a.push(b[k]);
        k = k + 1;
        assert(a@ =~= start + b@.subrange(lo as int, k as int));
    }
}

} // verus!

verus! {

/// Whether two byte strings are equal.
pub fn bytes_equal(a: &[u8], b: &[u8]) -> (r: bool)
    ensures
        r == (a@ == b@),
{
    if a.len() != b.len() {
        return false;
    }
    let mut i: usize = 0;
    while i < a.len()
        invariant
            i <= a@.len(),
            a@.len() == b@.len(),
            forall|k: int| 0 <= k < i ==> a@[k] == b@[k],
        decreases a@.len() - i,
    {
        if a[i] != b[i] {
            return false;
        }
        i = i + 1;
    }
    assert(a@ =~= b@);
    true
}

} // verus!
