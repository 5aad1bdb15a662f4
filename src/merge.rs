//! The paired-end merger: two mate reads become one consensus read.
//!
//! The second mate is reverse-complemented (its qualities reversed) and the
//! longest overlap between the end of the first mate and the start of the
//! second whose mismatch rate is within the bound is taken. The overlap
//! keeps, base by base, the call with the higher quality (the first mate on
//! ties). Without an acceptable overlap the two are concatenated.
use vstd::prelude::*;
use crate::dna::{revcomp, revcomp_spec};
use crate::fastq::{FastqRecord, get_sequence_id, sequence_id_spec};
use crate::text::{decimal, decimal_bytes, append_bytes, append_range};

verus! {

/// A mismatch rate `numerator / denominator`. A negative numerator accepts
/// no overlap.
#[derive(Clone, Copy, Debug)]
pub struct MismatchRate {
    pub numerator: i64,
    pub denominator: u64,
}

impl MismatchRate {
    pub open spec fn wf(&self) -> bool {
        self.denominator > 0
    }
}

/// The number of positions below `n` where `a` and `b` differ.
pub open spec fn mismatches(a: Seq<u8>, b: Seq<u8>, n: int) -> nat
    decreases n,
{
    if n <= 0 {
        0
    } else {
        mismatches(a, b, n - 1) + if a[n - 1] != b[n - 1] {
            1nat
        } else {
            0nat
        }
    }
}

/// The last `len` bytes of `s`.
pub open spec fn tail(s: Seq<u8>, len: int) -> Seq<u8> {
    s.subrange(s.len() - len, s.len() as int)
}

/// An overlap of `len` bases between the end of `a` and the start of `b`
/// whose mismatch rate `mismatches / len` is at most `rate` (an empty overlap
/// has no rate and is never acceptable).
pub open spec fn overlap_acceptable(a: Seq<u8>, b: Seq<u8>, len: int, rate: MismatchRate) -> bool {
    &&& 0 < len <= a.len()
    &&& len <= b.len()
    &&& mismatches(tail(a, len), b, len) * rate.denominator <= rate.numerator * len
}

pub open spec fn min_len(a: Seq<u8>, b: Seq<u8>) -> int {
    if a.len() <= b.len() {
        a.len() as int
    } else {
        b.len() as int
    }
}

/// Scanning lengths down from `l` to `min_overlap`, the first acceptable
/// one.
pub open spec fn longest_acceptable(a: Seq<u8>, b: Seq<u8>, min_overlap: int, l: int, rate: MismatchRate) -> Option<int>
    decreases l,
{
    if l < min_overlap || l <= 0 {
        None
    } else if overlap_acceptable(a, b, l, rate) {
        Some(l)
    } else {
        longest_acceptable(a, b, min_overlap, l - 1, rate)
    }
}

/// The overlap the merger takes: the longest acceptable length between
/// `min_overlap` and the shorter of the two sequences.
pub open spec fn chosen_overlap(a: Seq<u8>, b: Seq<u8>, min_overlap: int, rate: MismatchRate) -> Option<int> {
    longest_acceptable(a, b, min_overlap, min_len(a, b), rate)
}

/// The sequence in reverse order.
pub open spec fn reversed(s: Seq<u8>) -> Seq<u8> {
    Seq::new(s.len(), |i: int| s[s.len() - 1 - i])
}

/// Over an overlap, the base of the call with the higher quality (`a` on
/// ties), and that quality.
pub open spec fn consensus_seq(a: Seq<u8>, qa: Seq<u8>, b: Seq<u8>, qb: Seq<u8>) -> Seq<u8> {
    Seq::new(a.len(), |i: int| if qa[i] >= qb[i] { a[i] } else { b[i] })
}

pub open spec fn consensus_qual(qa: Seq<u8>, qb: Seq<u8>) -> Seq<u8> {
    Seq::new(qa.len(), |i: int| if qa[i] >= qb[i] { qa[i] } else { qb[i] })
}

/// The bases of the merged read, given the overlap taken (if any).
pub open spec fn merged_seq(s1: Seq<u8>, q1: Seq<u8>, s2: Seq<u8>, q2: Seq<u8>, ov: Option<int>) -> Seq<u8> {
    match ov {
        Some(l) => s1.subrange(0, s1.len() - l) + consensus_seq(
            tail(s1, l),
            tail(q1, l),
            s2.subrange(0, l),
            q2.subrange(0, l),
        ) + s2.subrange(l, s2.len() as int),
        None => s1 + s2,
    }
}

/// The qualities of the merged read, given the overlap taken (if any).
pub open spec fn merged_qual(q1: Seq<u8>, q2: Seq<u8>, ov: Option<int>) -> Seq<u8> {
    match ov {
        Some(l) => q1.subrange(0, q1.len() - l) + consensus_qual(tail(q1, l), q2.subrange(0, l))
            + q2.subrange(l, q2.len() as int),
        None => q1 + q2,
    }
}

/// `_merged_overlap_`
pub open spec fn overlap_tag() -> Seq<u8> {
    seq![95u8, 109, 101, 114, 103, 101, 100, 95, 111, 118, 101, 114, 108, 97, 112, 95]
}

/// `_merged_concat`
pub open spec fn concat_tag() -> Seq<u8> {
    seq![95u8, 109, 101, 114, 103, 101, 100, 95, 99, 111, 110, 99, 97, 116]
}

/// The id of the merged read: the mate-pair id, tagged with the overlap
/// length or as a concatenation.
pub open spec fn merged_id(id1: Seq<u8>, ov: Option<int>) -> Seq<u8> {
    match ov {
        Some(l) => sequence_id_spec(id1) + overlap_tag() + decimal(l as nat),
        None => sequence_id_spec(id1) + concat_tag(),
    }
}

/// What merging two mates gives, over their views.
pub open spec fn merge_spec(r1: FastqRecord, r2: FastqRecord, min_overlap: int, rate: MismatchRate) -> Option<(Seq<u8>, Seq<u8>, Seq<u8>)> {
    if r1.seq@.len() == 0 || r2.seq@.len() == 0 {
        None
    } else {
        let s2 = revcomp_spec(r2.seq@);
        let q2 = reversed(r2.qual@);
        let ov = chosen_overlap(r1.seq@, s2, min_overlap, rate);
        Some((merged_id(r1.id@, ov), merged_seq(r1.seq@, r1.qual@, s2, q2, ov), merged_qual(r1.qual@, q2, ov)))
    }
}

fn count_mismatches(a: &[u8], off: usize, b: &[u8], len: usize) -> (r: u64)
    requires
        off + len <= a@.len(),
        len <= b@.len(),
    ensures
        r == mismatches(a@.subrange(off as int, off + len), b@, len as int),
{
    let ghost w = a@.subrange(off as int, off + len);
    let alen = a.len();
    let mut k: usize = 0;
    let mut c: u64 = 0;
    while k < len
        invariant
            k <= len,
            off + len <= a@.len(),
            alen == a@.len(),
            len <= b@.len(),
            w == a@.subrange(off as int, off + len),
            c == mismatches(w, b@, k as int),
            c <= k,
        decreases len - k,
    {
        assert(off + k < a@.len());
        if a[off + k] != b[k] {
            c = c + 1;
        }
        k = k + 1;
    }
    c
}

fn overlap_ok(a: &[u8], b: &[u8], len: usize, rate: MismatchRate) -> (r: bool)
    requires
        rate.wf(),
        0 < len <= a@.len(),
        len <= b@.len(),
    ensures
        r == overlap_acceptable(a@, b@, len as int, rate),
{
    let m = count_mismatches(a, a.len() - len, b, len);
    if rate.numerator < 0 {
        proof {
            assert(rate.numerator * len < 0) by (nonlinear_arith)
                requires rate.numerator < 0, len > 0;
            assert(0 <= m * rate.denominator) by (nonlinear_arith)
                requires 0 <= m, 0 <= rate.denominator;
        }
        return false;
    }
    proof {
        assert(m * rate.denominator <= 0xffff_ffff_ffff_ffff * 0xffff_ffff_ffff_ffff) by (nonlinear_arith)
            requires m <= 0xffff_ffff_ffff_ffff, rate.denominator <= 0xffff_ffff_ffff_ffff;
        assert(rate.numerator * len <= 0xffff_ffff_ffff_ffff * 0xffff_ffff_ffff_ffff) by (nonlinear_arith)
            requires 0 <= rate.numerator <= 0xffff_ffff_ffff_ffff, 0 <= len <= 0xffff_ffff_ffff_ffff;
        assert(0 <= m * rate.denominator) by (nonlinear_arith)
            requires 0 <= m, 0 <= rate.denominator;
        assert(0 <= rate.numerator * len) by (nonlinear_arith)
            requires 0 <= rate.numerator, 0 <= len;
    }
    let lhs: u128 = (m as u128) * (rate.denominator as u128);
    let rhs: u128 = (rate.numerator as u128) * (len as u128);
    lhs <= rhs
}

pub proof fn lemma_mismatches_le(a: Seq<u8>, b: Seq<u8>, n: int)
    requires
        0 <= n,
    ensures
        mismatches(a, b, n) <= n,
    decreases n,
{
    if n > 0 {
        lemma_mismatches_le(a, b, n - 1);
    }
}

/// Finds the overlap to take: the longest acceptable one, scanning down from
/// the largest possible length to `min_overlap`.
pub fn find_overlap(a: &[u8], b: &[u8], min_overlap: usize, rate: MismatchRate) -> (r: Option<usize>)
    requires
        rate.wf(),
    ensures
        ov_int(r) == chosen_overlap(a@, b@, min_overlap as int, rate),
{
    let max_overlap = if a.len() <= b.len() {
        a.len()
    } else {
        b.len()
    };
    if max_overlap < min_overlap {
        return None;
    }
    let mut l = max_overlap;
    while l >= min_overlap && l > 0
        invariant
            l <= max_overlap,
            max_overlap == min_len(a@, b@),
            rate.wf(),
            longest_acceptable(a@, b@, min_overlap as int, l as int, rate) == chosen_overlap(a@, b@, min_overlap as int, rate),
        decreases l,
    {
        if overlap_ok(a, b, l, rate) {
            return Some(l);
        }
        l = l - 1;
    }
    None
}

} // verus!

verus! {

/// The bytes of `s` in reverse order.
pub fn reverse_bytes(s: &[u8]) -> (r: Vec<u8>)
    ensures
        r@ == reversed(s@),
{
    let mut r: Vec<u8> = Vec::new();
    let mut k: usize = s.len();
    while k > 0
        invariant
            k <= s@.len(),
            r@.len() == s@.len() - k,
            forall|i: int| 0 <= i < r@.len() ==> r@[i] == s@[s@.len() - 1 - i],
        decreases k,
    {
        k = k - 1;
        r.push(s[k]);
    }
    assert(r@ =~= reversed(s@));
    r
}

/// Appends the consensus of the last `l` bases of `s1` (qualities `q1`)
/// and the first `l` of `s2` (qualities `q2`).
fn push_consensus(seq: &mut Vec<u8>, qual: &mut Vec<u8>, s1: &[u8], q1: &[u8], s2: &[u8], q2: &[u8], l: usize)
    requires
        l <= s1@.len(),
        s1@.len() == q1@.len(),
        l <= s2@.len(),
        s2@.len() == q2@.len(),
    ensures
        final(seq)@ == old(seq)@ + consensus_seq(tail(s1@, l as int), tail(q1@, l as int), s2@.subrange(0, l as int), q2@.subrange(0, l as int)),
        final(qual)@ == old(qual)@ + consensus_qual(tail(q1@, l as int), q2@.subrange(0, l as int)),
{
    let n = s1.len();
    let n1 = n - l;
    let ghost seq0 = seq@;
    let ghost qual0 = qual@;
    let ghost ca = tail(s1@, l as int);
    let ghost cqa = tail(q1@, l as int);
    let ghost cb = s2@.subrange(0, l as int);
    let ghost cqb = q2@.subrange(0, l as int);
    let mut i: usize = 0;
    while i < l
        invariant
            i <= l,
            n == s1@.len(),
            n1 + l == n,
            s1@.len() == q1@.len(),
            l <= s2@.len(),
            s2@.len() == q2@.len(),
            ca == tail(s1@, l as int),
            cqa == tail(q1@, l as int),
            cb == s2@.subrange(0, l as int),
            cqb == q2@.subrange(0, l as int),
            seq@ == seq0 + consensus_seq(ca, cqa, cb, cqb).subrange(0, i as int),
            qual@ == qual0 + consensus_qual(cqa, cqb).subrange(0, i as int),
        decreases l - i,
    {
        if q1[n1 + i] >= q2[i] {
            seq.push(s1[n1 + i]);
            qual.push(q1[n1 + i]);
        } else {
            seq.push(s2[i]);
            qual.push(q2[i]);
        }
        i = i + 1;
        assert(seq@ =~= seq0 + consensus_seq(ca, cqa, cb, cqb).subrange(0, i as int));
        assert(qual@ =~= qual0 + consensus_qual(cqa, cqb).subrange(0, i as int));
    }
    assert(consensus_seq(ca, cqa, cb, cqb).subrange(0, l as int) =~= consensus_seq(ca, cqa, cb, cqb));
    assert(consensus_qual(cqa, cqb).subrange(0, l as int) =~= consensus_qual(cqa, cqb));
}

/// The overlap length as a mathematical integer.
pub open spec fn ov_int(ov: Option<usize>) -> Option<int> {
    match ov {
        Some(l) => Some(l as int),
        None => None,
    }
}

fn merge_bases(s1: &[u8], q1: &[u8], s2: &[u8], q2: &[u8], ov: Option<usize>) -> (r: (Vec<u8>, Vec<u8>))
    requires
        s1@.len() == q1@.len(),
        s2@.len() == q2@.len(),
        ov matches Some(l) ==> l <= s1@.len() && l <= s2@.len(),
    ensures
        r.0@ == merged_seq(s1@, q1@, s2@, q2@, ov_int(ov)),
        r.1@ == merged_qual(q1@, q2@, ov_int(ov)),
        r.0@.len() == r.1@.len(),
{
    let mut seq: Vec<u8> = Vec::new();
    let mut qual: Vec<u8> = Vec::new();
    match ov {
        Some(l) => {
            let n1 = s1.len() - l;
            append_range(&mut seq, s1, 0, n1);
            append_range(&mut qual, q1, 0, n1);
            push_consensus(&mut seq, &mut qual, s1, q1, s2, q2, l);
            append_range(&mut seq, s2, l, s2.len());
            append_range(&mut qual, q2, l, q2.len());
        },
        None => {
            append_range(&mut seq, s1, 0, s1.len());
            append_range(&mut seq, s2, 0, s2.len());
            append_range(&mut qual, q1, 0, q1.len());
            append_range(&mut qual, q2, 0, q2.len());
            assert(s1@.subrange(0, s1@.len() as int) =~= s1@);
            assert(s2@.subrange(0, s2@.len() as int) =~= s2@);
            assert(q1@.subrange(0, q1@.len() as int) =~= q1@);
            assert(q2@.subrange(0, q2@.len() as int) =~= q2@);
        },
    }
    assert(seq@ =~= merged_seq(s1@, q1@, s2@, q2@, ov_int(ov)));
    assert(qual@ =~= merged_qual(q1@, q2@, ov_int(ov)));
    (seq, qual)
}

fn merge_id(id1: &[u8], ov: Option<usize>) -> (r: Vec<u8>)
    ensures
        r@ == merged_id(id1@, ov_int(ov)),
{
    let mut id = get_sequence_id(id1);
    match ov {
        Some(l) => {
            let tag: [u8; 16] = [95u8, 109, 101, 114, 103, 101, 100, 95, 111, 118, 101, 114, 108, 97, 112, 95];
            assert(tag@ == overlap_tag());
            append_bytes(&mut id, tag.as_slice());
            let digits = decimal_bytes(l);
            append_bytes(&mut id, digits.as_slice());
        },
        None => {
            let tag: [u8; 14] = [95u8, 109, 101, 114, 103, 101, 100, 95, 99, 111, 110, 99, 97, 116];
            assert(tag@ == concat_tag());
            append_bytes(&mut id, tag.as_slice());
        },
    }
    id
}

/// Merges two mate reads into one consensus read. Returns nothing when
/// either read has no bases.
pub fn merge_paired_reads(r1: &FastqRecord, r2: &FastqRecord, min_overlap: usize, rate: MismatchRate) -> (r: Option<FastqRecord>)
    requires
        r1.wf(),
        r2.wf(),
        rate.wf(),
    ensures
        match merge_spec(*r1, *r2, min_overlap as int, rate) {
            None => r is None,
            Some(m) => {
                &&& r is Some
                &&& r->Some_0.id@ == m.0
                &&& r->Some_0.seq@ == m.1
                &&& r->Some_0.qual@ == m.2
                &&& r->Some_0.wf()
            },
        },
{
    if r1.seq.len() == 0 || r2.seq.len() == 0 {
        return None;
    }
    let s2 = revcomp(r2.seq.as_slice());
    let q2 = reverse_bytes(r2.qual.as_slice());
    let ov = find_overlap(r1.seq.as_slice(), s2.as_slice(), min_overlap, rate);
    assert(ov_int(ov) == chosen_overlap(r1.seq@, s2@, min_overlap as int, rate));
    proof {
        if ov is Some {
            lemma_chosen_in_range(r1.seq@, s2@, min_overlap as int, rate);
        }
    }
    let (seq, qual) = merge_bases(r1.seq.as_slice(), r1.qual.as_slice(), s2.as_slice(), q2.as_slice(), ov);
    let id = merge_id(r1.id.as_slice(), ov);
    Some(FastqRecord { id, seq, qual })
}

/// The scan from `hi` down gives an acceptable length in range, with no
/// acceptable length above it up to `hi`; or, when it gives nothing, no length
/// in range is acceptable.
pub proof fn lemma_longest_acceptable(a: Seq<u8>, b: Seq<u8>, min_overlap: int, hi: int, rate: MismatchRate)
    ensures
        match longest_acceptable(a, b, min_overlap, hi, rate) {
            Some(l) => {
                &&& min_overlap <= l <= hi
                &&& 0 < l
                &&& overlap_acceptable(a, b, l, rate)
                &&& forall|m: int| l < m <= hi ==> !(#[trigger] overlap_acceptable(a, b, m, rate))
            },
            None => forall|m: int| min_overlap <= m <= hi ==> !(#[trigger] overlap_acceptable(a, b, m, rate)),
        },
    decreases hi,
{
    if hi < min_overlap || hi <= 0 {
    } else if overlap_acceptable(a, b, hi, rate) {
    } else {
        lemma_longest_acceptable(a, b, min_overlap, hi - 1, rate);
    }
}

/// The chosen overlap is acceptable and no longer than either sequence.
pub proof fn lemma_chosen_in_range(a: Seq<u8>, b: Seq<u8>, min_overlap: int, rate: MismatchRate)
    requires
        chosen_overlap(a, b, min_overlap, rate) is Some,
    ensures
        ({
            let l = chosen_overlap(a, b, min_overlap, rate)->Some_0;
            &&& min_overlap <= l <= min_len(a, b)
            &&& 0 < l
            &&& overlap_acceptable(a, b, l, rate)
        }),
{
    lemma_longest_acceptable(a, b, min_overlap, min_len(a, b), rate);
}

/// The length of a merged read: the two mates' lengths less the overlap
/// taken, or their sum when the mates were concatenated; bases and
/// qualities always have the same length.
pub proof fn lemma_merged_length(r1: FastqRecord, r2: FastqRecord, min_overlap: int, rate: MismatchRate)
    requires
        r1.wf(),
        r2.wf(),
        merge_spec(r1, r2, min_overlap, rate) is Some,
    ensures
        ({
            let m = merge_spec(r1, r2, min_overlap, rate)->Some_0;
            let ov = chosen_overlap(r1.seq@, revcomp_spec(r2.seq@), min_overlap, rate);
            &&& m.1.len() == m.2.len()
            &&& match ov {
                Some(l) => m.1.len() == r1.seq@.len() + r2.seq@.len() - l,
                None => m.1.len() == r1.seq@.len() + r2.seq@.len(),
            }
        }),
{
    let s2 = revcomp_spec(r2.seq@);
    let ov = chosen_overlap(r1.seq@, s2, min_overlap, rate);
    if ov is Some {
        lemma_chosen_in_range(r1.seq@, s2, min_overlap, rate);
    }
}

/// The overlap taken by a merge has a mismatch rate within the bound, and no
/// longer overlap that both mates allow has.
pub proof fn lemma_overlap_greedy(r1: FastqRecord, r2: FastqRecord, min_overlap: int, rate: MismatchRate)
    requires
        chosen_overlap(r1.seq@, revcomp_spec(r2.seq@), min_overlap, rate) is Some,
    ensures
        ({
            let s2 = revcomp_spec(r2.seq@);
            let l = chosen_overlap(r1.seq@, s2, min_overlap, rate)->Some_0;
            &&& 0 < l
            &&& min_overlap <= l <= min_len(r1.seq@, s2)
            &&& mismatches(tail(r1.seq@, l), s2, l) * rate.denominator <= rate.numerator * l
            &&& forall|m: int| l < m <= min_len(r1.seq@, s2) ==> !(#[trigger] overlap_acceptable(r1.seq@, s2, m, rate))
        }),
{
    lemma_longest_acceptable(r1.seq@, revcomp_spec(r2.seq@), min_overlap, min_len(r1.seq@, revcomp_spec(r2.seq@)), rate);
}

} // verus!
