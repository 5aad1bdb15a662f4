//! The primer classification engine.
//!
//! For every unordered pair of distinct primers, taken in name order, two
//! strand hypotheses are tried: on the plus strand the first primer's
//! forward sequence and the second's reverse complement; on the minus strand
//! the second's forward sequence and the first's reverse complement. A
//! hypothesis holds when both are found and the forward one starts first;
//! its score is the sum of the two edit distances. The lowest score wins,
//! the earliest hypothesis on ties.
use vstd::prelude::*;
use crate::align::{AlignmentHit, AlignOutcome, hit_from_outcome, hit_spec, hit_view, alignment_text, render_alignment};
use crate::fastq::FastqRecord;
use crate::primers::{PrimerTable, EntryView};

verus! {

#[derive(Clone, Copy, Debug, PartialEq, Eq, Structural)]
pub enum Strand {
    Plus,
    Minus,
    Unknown,
}

impl Strand {
    /// The strand's symbol: `+`, `-` or `?`.
    pub fn symbol(&self) -> (r: u8)
        ensures
            r == match *self {
                Strand::Plus => 43u8,
                Strand::Minus => 45u8,
                Strand::Unknown => 63u8,
            },
    {
        match self {
            Strand::Plus => 43u8,
            Strand::Minus => 45u8,
            Strand::Unknown => 63u8,
        }
    }
}

/// How one primer was found in a read.
#[derive(Clone, Debug)]
pub struct PrimerMatch {
    pub found: bool,
    pub position: Option<usize>,
    pub errors: Option<usize>,
    /// The rendered alignment, or `-` when not found.
    pub alignment: Vec<u8>,
}

pub type MatchView = (bool, Option<usize>, Option<usize>, Seq<u8>);

impl PrimerMatch {
    pub open spec fn view(&self) -> MatchView {
        (self.found, self.position, self.errors, self.alignment@)
    }
}

/// A hit as `(edit distance, position, aligned primer, aligned read)`.
pub type HitView = (int, int, Seq<u8>, Seq<u8>);

/// The match of a hit: found, at its position, with its edit distance and
/// alignment.
pub open spec fn match_of_hit(h: HitView) -> MatchView {
    (true, Some(h.1 as usize), Some(h.0 as usize), alignment_text(h.2, h.3))
}

/// `-`
pub open spec fn placeholder() -> Seq<u8> {
    seq![45u8]
}

pub open spec fn not_found() -> MatchView {
    (false, None, None, placeholder())
}

/// The verdict on one read.
#[derive(Clone, Debug)]
pub struct Classification {
    pub read_id: Vec<u8>,
    pub length: usize,
    pub strand: Strand,
    pub forward_primer: Vec<u8>,
    pub reverse_primer: Vec<u8>,
    pub forward_match: PrimerMatch,
    pub reverse_match: PrimerMatch,
    pub distance: Option<usize>,
    pub is_dimer: bool,
}

pub type ClassView = (Seq<u8>, usize, Strand, Seq<u8>, Seq<u8>, MatchView, MatchView, Option<usize>, bool);

impl Classification {
    pub open spec fn view(&self) -> ClassView {
        (
            self.read_id@,
            self.length,
            self.strand,
            self.forward_primer@,
            self.reverse_primer@,
            self.forward_match.view(),
            self.reverse_match.view(),
            self.distance,
            self.is_dimer,
        )
    }
}

/// The views of a sequence of hits.
pub open spec fn hits_view(hits: Seq<Option<AlignmentHit>>) -> Seq<Option<(int, int, Seq<u8>, Seq<u8>)>> {
    Seq::new(
        hits.len(),
        |i: int|
            match hits[i] {
                Some(h) => Some(hit_view(h)),
                None => None,
            },
    )
}

/// A hypothesis: the pair `(i, j)` of table indices, `i < j`, and whether it
/// is the minus strand.
pub type Hyp = (int, int, bool);

pub open spec fn valid_hyp(h: Hyp, n: int) -> bool {
    0 <= h.0 < h.1 < n
}

/// The order in which hypotheses are tried.
pub open spec fn before(a: Hyp, b: Hyp) -> bool {
    a.0 < b.0 || (a.0 == b.0 && (a.1 < b.1 || (a.1 == b.1 && !a.2 && b.2)))
}

/// The forward and reverse hits of a hypothesis.
pub open spec fn fwd_hit(fw: Seq<Option<HitView>>, h: Hyp) -> Option<HitView> {
    if h.2 {
        fw[h.1]
    } else {
        fw[h.0]
    }
}

pub open spec fn rev_hit(rc: Seq<Option<HitView>>, h: Hyp) -> Option<HitView> {
    if h.2 {
        rc[h.0]
    } else {
        rc[h.1]
    }
}

/// The score of a hypothesis that holds.
pub open spec fn score(fw: Seq<Option<HitView>>, rc: Seq<Option<HitView>>, h: Hyp) -> Option<int> {
    match (fwd_hit(fw, h), rev_hit(rc, h)) {
        (Some(f), Some(r)) => if f.1 < r.1 {
            Some(f.0 + r.0)
        } else {
            None
        },
        _ => None,
    }
}

/// `best` is the winner among the hypotheses tried before `lim`.
pub open spec fn best_before(fw: Seq<Option<HitView>>, rc: Seq<Option<HitView>>, n: int, best: Option<Hyp>, lim: Hyp) -> bool {
    match best {
        None => forall|h: Hyp| valid_hyp(h, n) && before(h, lim) ==> #[trigger] score(fw, rc, h) is None,
        Some(b) => {
            &&& valid_hyp(b, n)
            &&& before(b, lim)
            &&& score(fw, rc, b) is Some
            &&& forall|h: Hyp|
                valid_hyp(h, n) && before(h, lim) && #[trigger] score(fw, rc, h) is Some ==> {
                    &&& score(fw, rc, b)->Some_0 <= score(fw, rc, h)->Some_0
                    &&& (before(h, b) ==> score(fw, rc, b)->Some_0 < score(fw, rc, h)->Some_0)
                }
        },
    }
}

/// A limit past every hypothesis over `n` primers.
pub open spec fn end_hyp(n: int) -> Hyp {
    (n, 0, false)
}

/// The winning hypothesis over all pairs, if any holds.
pub open spec fn best_hyp(fw: Seq<Option<HitView>>, rc: Seq<Option<HitView>>, n: int) -> Option<Hyp> {
    if exists|b: Hyp| best_before(fw, rc, n, Some(b), end_hyp(n)) {
        Some(choose|b: Hyp| best_before(fw, rc, n, Some(b), end_hyp(n)))
    } else {
        None
    }
}

/// The verdict for a read, given the hits of each table entry's forward
/// sequence (`fw`) and reverse complement (`rc`) in it.
pub open spec fn classification_spec(
    table: Seq<EntryView>,
    fw: Seq<Option<HitView>>,
    rc: Seq<Option<HitView>>,
    read_id: Seq<u8>,
    length: usize,
    min_dimer_distance: usize,
) -> ClassView {
    match best_hyp(fw, rc, table.len() as int) {
        Some(h) => {
            let f = fwd_hit(fw, h)->Some_0;
            let r = rev_hit(rc, h)->Some_0;
            let fi = if h.2 { h.1 } else { h.0 };
            let ri = if h.2 { h.0 } else { h.1 };
            let d = (r.1 - f.1) as usize;
            (
                read_id,
                length,
                if h.2 { Strand::Minus } else { Strand::Plus },
                table[fi].0,
                table[ri].0,
                match_of_hit(f),
                match_of_hit(r),
                Some(d),
                d < min_dimer_distance,
            )
        },
        None => (read_id, length, Strand::Unknown, placeholder(), placeholder(), not_found(), not_found(), None, false),
    }
}

/// Two hypotheses that both win are the same.
pub proof fn lemma_best_unique(fw: Seq<Option<HitView>>, rc: Seq<Option<HitView>>, n: int, a: Hyp, b: Hyp, lim: Hyp)
    requires
        best_before(fw, rc, n, Some(a), lim),
        best_before(fw, rc, n, Some(b), lim),
    ensures
        a == b,
{
    assert(score(fw, rc, a) is Some);
    assert(score(fw, rc, b) is Some);
    if a != b {
        if before(a, b) {
            assert(score(fw, rc, a)->Some_0 < score(fw, rc, b)->Some_0);
        } else {
            assert(before(b, a));
            assert(score(fw, rc, b)->Some_0 < score(fw, rc, a)->Some_0);
        }
    }
}

/// The winner found by a full scan is the one `best_hyp` names.
pub proof fn lemma_best_hyp_is(fw: Seq<Option<HitView>>, rc: Seq<Option<HitView>>, n: int, best: Option<Hyp>)
    requires
        best_before(fw, rc, n, best, end_hyp(n)),
    ensures
        best_hyp(fw, rc, n) == best,
{
    match best {
        Some(b) => {
            let c = choose|c: Hyp| best_before(fw, rc, n, Some(c), end_hyp(n));
            lemma_best_unique(fw, rc, n, b, c, end_hyp(n));
        },
        None => {
            if exists|b: Hyp| best_before(fw, rc, n, Some(b), end_hyp(n)) {
                let c = choose|c: Hyp| best_before(fw, rc, n, Some(c), end_hyp(n));
                assert(valid_hyp(c, n) && before(c, end_hyp(n)));
                assert(score(fw, rc, c) is None);
            }
        },
    }
}

/// Moving the limit keeps the winner when the same hypotheses lie before
/// both limits.
proof fn lemma_limit_equiv(fw: Seq<Option<HitView>>, rc: Seq<Option<HitView>>, n: int, best: Option<Hyp>, lim1: Hyp, lim2: Hyp)
    requires
        best_before(fw, rc, n, best, lim1),
        forall|g: Hyp| valid_hyp(g, n) ==> (before(g, lim1) <==> before(g, lim2)),
    ensures
        best_before(fw, rc, n, best, lim2),
{
}

pub open spec fn hyp_of(b: Option<(usize, usize, bool)>) -> Option<Hyp> {
    match b {
        Some(t) => Some((t.0 as int, t.1 as int, t.2)),
        None => None,
    }
}

/// The score of hypothesis `(i, j, minus)`, if it holds.
fn hyp_score(fw: &Vec<Option<AlignmentHit>>, rc: &Vec<Option<AlignmentHit>>, i: usize, j: usize, minus: bool) -> (r: Option<u128>)
    requires
        i < fw@.len(),
        j < fw@.len(),
        fw@.len() == rc@.len(),
    ensures
        match score(hits_view(fw@), hits_view(rc@), (i as int, j as int, minus)) {
            Some(sc) => r == Some(sc as u128),
            None => r is None,
        },
{
    let (f, r) = if minus {
        (&fw[j], &rc[i])
    } else {
        (&fw[i], &rc[j])
    };
    match (f, r) {
        (Some(f), Some(r)) => {
            if f.position < r.position {
                Some(f.edit_distance as u128 + r.edit_distance as u128)
            } else {
                None
            }
        },
        _ => None,
    }
}

/// Tries hypothesis `h`: it becomes the winner when it holds with a score
/// lower than the winner so far.
fn consider(
    fw: &Vec<Option<AlignmentHit>>,
    rc: &Vec<Option<AlignmentHit>>,
    best: &mut Option<(usize, usize, bool)>,
    best_score: &mut u128,
    i: usize,
    j: usize,
    minus: bool,
    lim2: Ghost<Hyp>,
)
    requires
        i < j < fw@.len(),
        fw@.len() == rc@.len(),
        best_before(hits_view(fw@), hits_view(rc@), fw@.len() as int, hyp_of(*old(best)), (i as int, j as int, minus)),
        hyp_of(*old(best)) matches Some(b) ==> score(hits_view(fw@), hits_view(rc@), b) == Some(*old(best_score) as int),
        forall|g: Hyp| #[trigger] before(g, lim2@) <==> (before(g, (i as int, j as int, minus)) || g == (i as int, j as int, minus)),
    ensures
        best_before(hits_view(fw@), hits_view(rc@), fw@.len() as int, hyp_of(*final(best)), lim2@),
        hyp_of(*final(best)) matches Some(b) ==> score(hits_view(fw@), hits_view(rc@), b) == Some(*final(best_score) as int),
{
    let ghost h: Hyp = (i as int, j as int, minus);
    let ghost n = fw@.len() as int;
    match hyp_score(fw, rc, i, j, minus) {
        Some(sc) => {
            let take = match *best {
                None => true,
                Some(_) => sc < *best_score,
            };
            if take {
                *best = Some((i, j, minus));
                *best_score = sc;
                proof {
                    assert forall|g: Hyp| valid_hyp(g, n) && before(g, lim2@) && #[trigger] score(hits_view(fw@), hits_view(rc@), g) is Some implies {
                        &&& score(hits_view(fw@), hits_view(rc@), h)->Some_0 <= score(hits_view(fw@), hits_view(rc@), g)->Some_0
                        &&& (before(g, h) ==> score(hits_view(fw@), hits_view(rc@), h)->Some_0 < score(hits_view(fw@), hits_view(rc@), g)->Some_0)
                    } by {
                        if g != h {
                            assert(before(g, h));
                        }
                    }
                }
            } else {
                proof {
                    let b = hyp_of(*best)->Some_0;
                    assert forall|g: Hyp| valid_hyp(g, n) && before(g, lim2@) && #[trigger] score(hits_view(fw@), hits_view(rc@), g) is Some implies {
                        &&& score(hits_view(fw@), hits_view(rc@), b)->Some_0 <= score(hits_view(fw@), hits_view(rc@), g)->Some_0
                        &&& (before(g, b) ==> score(hits_view(fw@), hits_view(rc@), b)->Some_0 < score(hits_view(fw@), hits_view(rc@), g)->Some_0)
                    } by {
                        if g != h {
                            assert(before(g, h));
                        } else {
                            assert(!before(h, b));
                        }
                    }
                    assert(before(b, lim2@));
                }
            }
        },
        None => {
            proof {
                assert forall|g: Hyp| valid_hyp(g, n) && before(g, lim2@) && #[trigger] score(hits_view(fw@), hits_view(rc@), g) is Some implies before(g, h) by {
                    if g == h {
                        assert(score(hits_view(fw@), hits_view(rc@), h) is None);
                    }
                }
                match hyp_of(*best) {
                    Some(b) => {
                        assert(before(b, lim2@));
                    },
                    None => {},
                }
            }
        },
    }
}

/// Finds the winning hypothesis over all pairs of table entries, given the
/// hits of each entry's forward sequence and reverse complement.
fn best_pair(fw: &Vec<Option<AlignmentHit>>, rc: &Vec<Option<AlignmentHit>>) -> (r: Option<(usize, usize, bool)>)
    requires
        fw@.len() == rc@.len(),
    ensures
        hyp_of(r) == best_hyp(hits_view(fw@), hits_view(rc@), fw@.len() as int),
        r matches Some(b) ==> b.0 < b.1 < fw@.len(),
{
    let n = fw.len();
    let ghost gn = n as int;
    let mut best: Option<(usize, usize, bool)> = None;
    let mut best_score: u128 = 0;
    let mut i: usize = 0;
    while i < n
        invariant
            i <= n,
            n == fw@.len(),
            gn == n as int,
            fw@.len() == rc@.len(),
            best_before(hits_view(fw@), hits_view(rc@), gn, hyp_of(best), (i as int, 0, false)),
            hyp_of(best) matches Some(b) ==> score(hits_view(fw@), hits_view(rc@), b) == Some(best_score as int),
        decreases n - i,
    {
        let mut j: usize = i + 1;
        proof {
            lemma_limit_equiv(hits_view(fw@), hits_view(rc@), gn, hyp_of(best), (i as int, 0, false), (i as int, j as int, false));
        }
        while j < n
            invariant
                i < n,
                i < j <= n,
                n == fw@.len(),
                gn == n as int,
                fw@.len() == rc@.len(),
                best_before(hits_view(fw@), hits_view(rc@), gn, hyp_of(best), (i as int, j as int, false)),
                hyp_of(best) matches Some(b) ==> score(hits_view(fw@), hits_view(rc@), b) == Some(best_score as int),
            decreases n - j,
        {
            consider(fw, rc, &mut best, &mut best_score, i, j, false, Ghost((i as int, j as int, true)));
            consider(fw, rc, &mut best, &mut best_score, i, j, true, Ghost((i as int, j + 1, false)));
            j = j + 1;
        }
        proof {
            assert(j == n);
            assert forall|g: Hyp| valid_hyp(g, gn) implies (before(g, (i as int, j as int, false)) <==> before(g, (i + 1, 0, false))) by {
                assert(g.1 < gn);
            }
            lemma_limit_equiv(hits_view(fw@), hits_view(rc@), gn, hyp_of(best), (i as int, j as int, false), (i + 1, 0, false));
        }
        i = i + 1;
    }
    proof {
        lemma_limit_equiv(hits_view(fw@), hits_view(rc@), gn, hyp_of(best), (i as int, 0, false), end_hyp(gn));
        lemma_best_hyp_is(hits_view(fw@), hits_view(rc@), gn, hyp_of(best));
    }
    best
}

/// The match record for a primer: found with its hit, or not found.
pub fn create_primer_match(hit: Option<&AlignmentHit>) -> (r: PrimerMatch)
    ensures
        r.view() == match hit {
            Some(h) => match_of_hit(hit_view(*h)),
            None => not_found(),
        },
{
    match hit {
        Some(h) => {
            let alignment = render_alignment(h.query_aligned.as_slice(), h.target_aligned.as_slice());
            PrimerMatch { found: true, position: Some(h.position), errors: Some(h.edit_distance), alignment }
        },
        None => {
            let mut alignment: Vec<u8> = Vec::new();
            alignment.push(45u8);
            assert(alignment@ =~= placeholder());
            PrimerMatch { found: false, position: None, errors: None, alignment }
        },
    }
}

/// Classifies a read of `length` bases with id `read_id`, given for each
/// table entry the hit of its forward sequence (`fwd_hits`) and of its
/// reverse complement (`rc_hits`) in the read.
pub fn classify_hits(
    table: &PrimerTable,
    fwd_hits: &Vec<Option<AlignmentHit>>,
    rc_hits: &Vec<Option<AlignmentHit>>,
    read_id: &[u8],
    length: usize,
    min_dimer_distance: usize,
) -> (r: Classification)
    requires
        fwd_hits@.len() == table@.len(),
        rc_hits@.len() == table@.len(),
    ensures
        r.view() == classification_spec(table@, hits_view(fwd_hits@), hits_view(rc_hits@), read_id@, length, min_dimer_distance),
{
    let id = crate::text::copy_range(read_id, 0, read_id.len());
    assert(id@ =~= read_id@);
    match best_pair(fwd_hits, rc_hits) {
        Some((i, j, minus)) => {
            let ghost h: Hyp = (i as int, j as int, minus);
            let (fi, ri) = if minus {
                (j, i)
            } else {
                (i, j)
            };
            let f = fwd_hits[fi].as_ref().unwrap();
            let r = rc_hits[ri].as_ref().unwrap();
            assert(score(hits_view(fwd_hits@), hits_view(rc_hits@), h) is Some);
            let fname = table.entry(fi).name.as_slice();
            let rname = table.entry(ri).name.as_slice();
            let forward_primer = crate::text::copy_range(fname, 0, fname.len());
            let reverse_primer = crate::text::copy_range(rname, 0, rname.len());
            assert(forward_primer@ =~= fname@);
            assert(reverse_primer@ =~= rname@);
            let d = r.position - f.position;
            let forward_match = create_primer_match(Some(f));
            let reverse_match = create_primer_match(Some(r));
            Classification {
                read_id: id,
                length,
                strand: if minus {
                    Strand::Minus
                } else {
                    Strand::Plus
                },
                forward_primer,
                reverse_primer,
                forward_match,
                reverse_match,
                distance: Some(d),
                is_dimer: d < min_dimer_distance,
            }
        },
        None => {
            let mut fp: Vec<u8> = Vec::new();
            fp.push(45u8);
            let mut rp: Vec<u8> = Vec::new();
            rp.push(45u8);
            assert(fp@ =~= placeholder());
            assert(rp@ =~= placeholder());
            Classification {
                read_id: id,
                length,
                strand: Strand::Unknown,
                forward_primer: fp,
                reverse_primer: rp,
                forward_match: create_primer_match(None),
                reverse_match: create_primer_match(None),
                distance: None,
                is_dimer: false,
            }
        },
    }
}

/// The hits, for each table entry, of its forward sequence (`forward`
/// true) or reverse complement in `target`, from the aligner's reports.
pub open spec fn hits_spec(table: Seq<EntryView>, target: Seq<u8>, outcomes: Seq<AlignOutcome>, forward: bool, max_errors: int) -> Seq<Option<(int, int, Seq<u8>, Seq<u8>)>> {
    Seq::new(
        table.len(),
        |i: int| hit_spec(if forward { table[i].1 } else { table[i].2 }, target, outcomes[i], max_errors),
    )
}


fn hits_from_outcomes(table: &PrimerTable, target: &[u8], outcomes: &Vec<AlignOutcome>, forward: bool, max_errors: i32) -> (r: Vec<Option<AlignmentHit>>)
    requires
        outcomes@.len() == table@.len(),
    ensures
        hits_view(r@) == hits_spec(table@, target@, outcomes@, forward, max_errors as int),
        r@.len() == table@.len(),
{
    let mut r: Vec<Option<AlignmentHit>> = Vec::new();
    let mut i: usize = 0;
    while i < table.len()
        invariant
            i <= table@.len(),
            outcomes@.len() == table@.len(),
            r@.len() == i,
            forall|k: int| 0 <= k < i ==> hits_view(r@)[k] == #[trigger] hits_spec(table@, target@, outcomes@, forward, max_errors as int)[k],
        decreases table@.len() - i,
    {
        let e = table.entry(i);
        let q = if forward {
            e.forward.as_slice()
        } else {
            e.reverse_complement.as_slice()
        };
        let h = hit_from_outcome(q, target, &outcomes[i], max_errors);
        r.push(h);
        i = i + 1;
    }
    assert(hits_view(r@) =~= hits_spec(table@, target@, outcomes@, forward, max_errors as int));
    r
}

/// Classifies a read against the primer table, given the aligner's report
/// for each entry's forward sequence (`fwd_outcomes`) and reverse complement
/// (`rc_outcomes`) against the read's bases, run with bound `max_errors`.
/// The verdict is the one `classify_hits` gives on the hits read from those
/// reports.
pub fn analyze_read(
    read: &FastqRecord,
    table: &PrimerTable,
    fwd_outcomes: &Vec<AlignOutcome>,
    rc_outcomes: &Vec<AlignOutcome>,
    max_errors: i32,
    min_dimer_distance: usize,
) -> (r: Classification)
    requires
        fwd_outcomes@.len() == table@.len(),
        rc_outcomes@.len() == table@.len(),
    ensures
        r.view() == classification_spec(
            table@,
            hits_spec(table@, read.seq@, fwd_outcomes@, true, max_errors as int),
            hits_spec(table@, read.seq@, rc_outcomes@, false, max_errors as int),
            read.id@,
            read.seq@.len() as usize,
            min_dimer_distance,
        ),
{
    let fw = hits_from_outcomes(table, read.seq.as_slice(), fwd_outcomes, true, max_errors);
    let rc = hits_from_outcomes(table, read.seq.as_slice(), rc_outcomes, false, max_errors);
    classify_hits(table, &fw, &rc, read.id.as_slice(), read.seq.len(), min_dimer_distance)
}

/// A verdict with a distance has both primers found, the forward one at a
/// smaller position than the reverse one; the distance is the gap between
/// the two positions, and the read is a dimer exactly when that distance is
/// below `min_dimer_distance`. A verdict without a distance is no dimer.
pub proof fn lemma_verdict_distance(
    table: Seq<EntryView>,
    fw: Seq<Option<AlignmentHit>>,
    rc: Seq<Option<AlignmentHit>>,
    read_id: Seq<u8>,
    length: usize,
    min_dimer_distance: usize,
)
    requires
        fw.len() == table.len(),
        rc.len() == table.len(),
    ensures
        ({
            let c = classification_spec(table, hits_view(fw), hits_view(rc), read_id, length, min_dimer_distance);
            &&& c.7 matches Some(d) ==> {
                &&& c.5.1 is Some
                &&& c.6.1 is Some
                &&& c.5.1->Some_0 < c.6.1->Some_0
                &&& d == c.6.1->Some_0 - c.5.1->Some_0
                &&& c.8 == (d < min_dimer_distance)
            }
            &&& c.7 is None ==> !c.8
        }),
{
    let n = table.len() as int;
    let fv = hits_view(fw);
    let rv = hits_view(rc);
    match best_hyp(fv, rv, n) {
        Some(h) => {
            assert(best_before(fv, rv, n, Some(h), end_hyp(n)));
            assert(score(fv, rv, h) is Some);
            assert(valid_hyp(h, n));
        },
        None => {},
    }
}

/// A read's verdict depends only on the read, the table, the aligner's
/// reports and the two bounds: two verdicts reached from the same inputs
/// are equal, whatever order reads are handled in or however many workers
/// handle them.
pub proof fn lemma_verdict_deterministic(
    c1: Classification,
    c2: Classification,
    read: FastqRecord,
    table: Seq<EntryView>,
    fwd_outcomes: Seq<AlignOutcome>,
    rc_outcomes: Seq<AlignOutcome>,
    max_errors: i32,
    min_dimer_distance: usize,
)
    requires
        c1.view() == classification_spec(
            table,
            hits_spec(table, read.seq@, fwd_outcomes, true, max_errors as int),
            hits_spec(table, read.seq@, rc_outcomes, false, max_errors as int),
            read.id@,
            read.seq@.len() as usize,
            min_dimer_distance,
        ),
        c2.view() == classification_spec(
            table,
            hits_spec(table, read.seq@, fwd_outcomes, true, max_errors as int),
            hits_spec(table, read.seq@, rc_outcomes, false, max_errors as int),
            read.id@,
            read.seq@.len() as usize,
            min_dimer_distance,
        ),
    ensures
        c1.view() == c2.view(),
{
}

} // verus!
