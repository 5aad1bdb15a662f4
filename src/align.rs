//! Reading the aligner's report on one primer against one read.
//!
//! The aligner is a bounded edit-distance aligner in infix mode: the primer
//! may match anywhere in the read. Its raw report is turned into a hit (edit
//! distance, leftmost start, and the two aligned strings) or into "not
//! found".
use vstd::prelude::*;
use crate::text::append_bytes;

verus! {

/// The aligner's raw report, field for field.
#[derive(Clone, Debug)]
pub struct AlignOutcome {
    /// 0 when the alignment ran.
    pub status: u32,
    /// The edit distance, or -1 when it exceeds the bound.
    pub edit_distance: i32,
    /// Zero-based starts in the read of the optimal alignments.
    pub start_locations: Option<Vec<i32>>,
    /// Zero-based (inclusive) ends in the read of the optimal alignments.
    pub end_locations: Option<Vec<i32>>,
    /// The edit path of the first alignment: 0 match, 1 insertion to the
    /// read, 2 insertion to the primer, 3 mismatch.
    pub alignment: Option<Vec<u8>>,
}

/// A primer found in a read.
#[derive(Clone, Debug)]
pub struct AlignmentHit {
    pub edit_distance: usize,
    /// The leftmost start of an optimal alignment in the read.
    pub position: usize,
    /// The primer as aligned, with `-` for gaps.
    pub query_aligned: Vec<u8>,
    /// The read region as aligned, with `-` for gaps.
    pub target_aligned: Vec<u8>,
}

/// The span `(edit distance, start, end)` of a usable report: the aligner
/// ran, the distance is within `max_errors`, and the first start and end lie
/// in the read in order.
pub open spec fn outcome_span(o: AlignOutcome, target_len: int, max_errors: int) -> Option<(int, int, int)> {
    if o.status == 0 && 0 <= o.edit_distance <= max_errors && o.start_locations is Some
        && o.end_locations is Some && o.start_locations->Some_0@.len() > 0
        && o.end_locations->Some_0@.len() > 0 {
        let s = o.start_locations->Some_0@[0] as int;
        let e = o.end_locations->Some_0@[0] as int;
        if 0 <= s <= e < target_len {
            Some((o.edit_distance as int, s, e))
        } else {
            None
        }
    } else {
        None
    }
}

/// `-`
pub open spec fn gap() -> u8 {
    45u8
}

/// Walking the first `k` operations of an edit path over `q` and `t`: the
/// two aligned strings and how far each input has been read. An operation
/// that would read past its input is passed over, as is an unknown one.
pub open spec fn walk(q: Seq<u8>, t: Seq<u8>, path: Seq<u8>, k: int) -> (Seq<u8>, Seq<u8>, int, int)
    decreases k,
{
    if k <= 0 {
        (Seq::empty(), Seq::empty(), 0, 0)
    } else {
        let (qa, ta, qi, ti) = walk(q, t, path, k - 1);
        let op = path[k - 1];
        if (op == 0 || op == 3) && qi < q.len() && ti < t.len() {
            (qa.push(q[qi]), ta.push(t[ti]), qi + 1, ti + 1)
        } else if op == 1 && ti < t.len() {
            (qa.push(gap()), ta.push(t[ti]), qi, ti + 1)
        } else if op == 2 && qi < q.len() {
            (qa.push(q[qi]), ta.push(gap()), qi + 1, ti)
        } else {
            (qa, ta, qi, ti)
        }
    }
}

/// `s` followed by `n` gaps.
pub open spec fn pad(s: Seq<u8>, n: int) -> Seq<u8> {
    s + Seq::new(if n > 0 { n as nat } else { 0 }, |i: int| gap())
}

/// The two aligned strings that an edit path gives, the shorter padded with
/// gaps to the length of the longer.
pub open spec fn aligned_pair(q: Seq<u8>, t: Seq<u8>, path: Seq<u8>) -> (Seq<u8>, Seq<u8>) {
    let (qa, ta, qi, ti) = walk(q, t, path, path.len() as int);
    (pad(qa, ta.len() - qa.len()), pad(ta, qa.len() - ta.len()))
}

proof fn lemma_walk_bounds(q: Seq<u8>, t: Seq<u8>, path: Seq<u8>, k: int)
    requires
        0 <= k <= path.len(),
    ensures
        ({
            let (qa, ta, qi, ti) = walk(q, t, path, k);
            0 <= qi <= q.len() && 0 <= ti <= t.len() && qa.len() <= k && ta.len() <= k
        }),
    decreases k,
{
    if k > 0 {
        lemma_walk_bounds(q, t, path, k - 1);
    }
}

fn push_gaps(s: &mut Vec<u8>, n: usize)
    ensures
        final(s)@ == pad(old(s)@, n as int),
{
    let ghost s0 = s@;
    let mut i: usize = 0;
    while i < n
        invariant
            i <= n,
            s@ == pad(s0, i as int),
        decreases n - i,
    {
        s.push(45u8);
        i = i + 1;
        assert(s@ =~= pad(s0, i as int));
    }
}

/// Lays out an alignment: walks the edit path over the primer `query` and
/// the aligned read region `target`, then pads the shorter line with gaps.
pub fn format_alignment(query: &[u8], target: &[u8], path: &[u8]) -> (r: (Vec<u8>, Vec<u8>))
    ensures
        (r.0@, r.1@) == aligned_pair(query@, target@, path@),
        r.0@.len() == r.1@.len(),
{
    let mut qa: Vec<u8> = Vec::new();
    let mut ta: Vec<u8> = Vec::new();
    let mut qi: usize = 0;
    let mut ti: usize = 0;
    let mut k: usize = 0;
    while k < path.len()
        invariant
            k <= path@.len(),
            (qa@, ta@, qi as int, ti as int) == walk(query@, target@, path@, k as int),
        decreases path@.len() - k,
    {
        proof {
            lemma_walk_bounds(query@, target@, path@, k as int);
        }
        let op = path[k];
        if (op == 0 || op == 3) && qi < query.len() && ti < target.len() {
            qa.push(query[qi]);
            ta.push(target[ti]);
            qi = qi + 1;
            ti = ti + 1;
        } else if op == 1 && ti < target.len() {
            qa.push(45u8);
            ta.push(target[ti]);
            ti = ti + 1;
        } else if op == 2 && qi < query.len() {
            qa.push(query[qi]);
            ta.push(45u8);
            qi = qi + 1;
        }
        k = k + 1;
    }
    let ghost qa0 = qa@;
    let ghost ta0 = ta@;
    if ta.len() > qa.len() {
        let n = ta.len() - qa.len();
        push_gaps(&mut qa, n);
    } else {
        assert(qa@ =~= pad(qa0, ta0.len() - qa0.len()));
    }
    if qa.len() > ta.len() {
        let n = qa.len() - ta.len();
        push_gaps(&mut ta, n);
    } else {
        assert(ta@ =~= pad(ta0, qa0.len() - ta0.len()));
    }
    (qa, ta)
}

/// The hit a report gives for `query` against `target`, if it is usable.
/// Without an edit path the aligned strings are empty.
pub open spec fn hit_spec(query: Seq<u8>, target: Seq<u8>, o: AlignOutcome, max_errors: int) -> Option<(int, int, Seq<u8>, Seq<u8>)> {
    match outcome_span(o, target.len() as int, max_errors) {
        Some((d, s, e)) => {
            let (qa, ta) = match o.alignment {
                Some(p) => aligned_pair(query, target.subrange(s, e + 1), p@),
                None => (Seq::empty(), Seq::empty()),
            };
            Some((d, s, qa, ta))
        },
        None => None,
    }
}

pub open spec fn hit_view(h: AlignmentHit) -> (int, int, Seq<u8>, Seq<u8>) {
    (h.edit_distance as int, h.position as int, h.query_aligned@, h.target_aligned@)
}

/// Turns the aligner's report for `query` against `target` into a hit, or
/// into "not found" when the aligner failed, the distance exceeds
/// `max_errors`, or no usable location was reported.
pub fn hit_from_outcome(query: &[u8], target: &[u8], o: &AlignOutcome, max_errors: i32) -> (r: Option<AlignmentHit>)
    ensures
        match hit_spec(query@, target@, *o, max_errors as int) {
            Some(h) => r is Some && hit_view(r->Some_0) == h && r->Some_0.query_aligned@.len()
                == r->Some_0.target_aligned@.len(),
            None => r is None,
        },
{
    if o.status != 0 || o.edit_distance < 0 || o.edit_distance > max_errors {
        return None;
    }
    let (starts, ends) = match (&o.start_locations, &o.end_locations) {
        (Some(s), Some(e)) => (s, e),
        _ => {
            return None;
        },
    };
    if starts.len() == 0 || ends.len() == 0 {
        return None;
    }
    let s = starts[0];
    let e = ends[0];
    if s < 0 || e < s || e as usize >= target.len() {
        return None;
    }
    let start = s as usize;
    let end = e as usize;
    let (qa, ta) = match &o.alignment {
        Some(p) => {
            let region = crate::text::copy_range(target, start, end + 1);
            format_alignment(query, region.as_slice(), p.as_slice())
        },
        None => (Vec::new(), Vec::new()),
    };
    Some(AlignmentHit { edit_distance: o.edit_distance as usize, position: start, query_aligned: qa, target_aligned: ta })
}

/// The middle line of an alignment, over the length of the shorter line:
/// `|` where the two agree, a space against a gap, `*` for a mismatch.
pub open spec fn match_line(qa: Seq<u8>, ta: Seq<u8>) -> Seq<u8> {
    Seq::new(
        if qa.len() <= ta.len() { qa.len() } else { ta.len() },
        |i: int|
            if qa[i] == ta[i] {
                124u8
            } else if qa[i] == gap() || ta[i] == gap() {
                32u8
            } else {
                42u8
            },
    )
}

/// The three lines of an alignment joined by `|`.
pub open spec fn alignment_text(qa: Seq<u8>, ta: Seq<u8>) -> Seq<u8> {
    qa + seq![124u8] + match_line(qa, ta) + seq![124u8] + ta
}

/// Renders an alignment: aligned primer, match line, aligned read.
pub fn render_alignment(qa: &[u8], ta: &[u8]) -> (r: Vec<u8>)
    ensures
        r@ == alignment_text(qa@, ta@),
{
    let mut m: Vec<u8> = Vec::new();
    let n = if qa.len() <= ta.len() {
        qa.len()
    } else {
        ta.len()
    };
    let mut i: usize = 0;
    while i < n
        invariant
            i <= n,
            n <= qa@.len(),
            n <= ta@.len(),
            n == match_line(qa@, ta@).len(),
            m@ == match_line(qa@, ta@).subrange(0, i as int),
        decreases n - i,
    {
        let c: u8 = if qa[i] == ta[i] {
            124u8
        } else if qa[i] == 45u8 || ta[i] == 45u8 {
            32u8
        } else {
            42u8
        };
        m.push(c);
        i = i + 1;
        assert(m@ =~= match_line(qa@, ta@).subrange(0, i as int));
    }
    assert(m@ =~= match_line(qa@, ta@));
    let mut r: Vec<u8> = Vec::new();
    append_bytes(&mut r, qa);
    r.push(124u8);
    append_bytes(&mut r, m.as_slice());
    r.push(124u8);
    append_bytes(&mut r, ta);
    assert(r@ =~= alignment_text(qa@, ta@));
    r
}

} // verus!
