//! Run statistics and the result sink.
//!
//! Every verdict updates the counters once: reads, reads with both primers
//! found, plus- and minus-strand reads, dimers, and a count per
//! (forward primer, reverse primer) pair. The counts do not depend on the
//! order in which verdicts arrive. The sink also decides which verdicts get
//! a result row: the first `max_output` (all of them when it is 0).
use vstd::prelude::*;
use crate::classify::{Classification, ClassView, Strand};
use crate::text::{bytes_equal, copy_range};

verus! {

/// How many verdicts in `cs` satisfy `p`.
pub open spec fn count(cs: Seq<ClassView>, p: spec_fn(ClassView) -> bool) -> nat
    decreases cs.len(),
{
    if cs.len() == 0 {
        0
    } else {
        count(cs.drop_last(), p) + if p(cs.last()) {
            1nat
        } else {
            0nat
        }
    }
}

pub open spec fn both_found(c: ClassView) -> bool {
    c.5.0 && c.6.0
}

pub open spec fn on_plus(c: ClassView) -> bool {
    c.2 == Strand::Plus
}

pub open spec fn on_minus(c: ClassView) -> bool {
    c.2 == Strand::Minus
}

pub open spec fn on_unknown(c: ClassView) -> bool {
    c.2 == Strand::Unknown
}

pub open spec fn dimer(c: ClassView) -> bool {
    c.8
}

/// A pair entry: forward primer name, reverse primer name, count.
pub type PairView = (Seq<u8>, Seq<u8>, nat);

/// Scanning from `k`, the index of the entry for the pair `(f, r)` (or the
/// length when there is none).
pub open spec fn pair_index(list: Seq<PairView>, f: Seq<u8>, r: Seq<u8>, k: int) -> int
    decreases list.len() - k,
{
    if k < 0 || k >= list.len() {
        list.len() as int
    } else if list[k].0 == f && list[k].1 == r {
        k
    } else {
        pair_index(list, f, r, k + 1)
    }
}

/// The pair list with one more occurrence of `(f, r)`: its entry counted
/// up, or a new entry at the end.
pub open spec fn add_pair(list: Seq<PairView>, f: Seq<u8>, r: Seq<u8>) -> Seq<PairView> {
    let i = pair_index(list, f, r, 0);
    if i < list.len() {
        list.update(i, (f, r, list[i].2 + 1))
    } else {
        list.push((f, r, 1))
    }
}

/// The pair counts of a run, in order of first occurrence.
pub open spec fn pairs_of(cs: Seq<ClassView>) -> Seq<PairView>
    decreases cs.len(),
{
    if cs.len() == 0 {
        Seq::empty()
    } else {
        add_pair(pairs_of(cs.drop_last()), cs.last().3, cs.last().4)
    }
}

/// The sum of the counts in a pair list.
pub open spec fn sum_counts(list: Seq<PairView>) -> nat
    decreases list.len(),
{
    if list.len() == 0 {
        0
    } else {
        sum_counts(list.drop_last()) + list.last().2
    }
}

#[derive(Clone, Debug)]
pub struct PairCount {
    pub forward_primer: Vec<u8>,
    pub reverse_primer: Vec<u8>,
    pub count: usize,
}

impl PairCount {
    pub open spec fn view(&self) -> PairView {
        (self.forward_primer@, self.reverse_primer@, self.count as nat)
    }
}

/// The statistics of a run.
pub struct Statistics {
    total_reads: usize,
    both_primers_found: usize,
    plus_strand: usize,
    minus_strand: usize,
    dimer_count: usize,
    primer_pairs: Vec<PairCount>,
    seen: Ghost<Seq<ClassView>>,
}

pub proof fn lemma_count_le(cs: Seq<ClassView>, p: spec_fn(ClassView) -> bool)
    ensures
        count(cs, p) <= cs.len(),
    decreases cs.len(),
{
    if cs.len() > 0 {
        lemma_count_le(cs.drop_last(), p);
    }
}

pub proof fn lemma_count_push(cs: Seq<ClassView>, c: ClassView, p: spec_fn(ClassView) -> bool)
    ensures
        count(cs.push(c), p) == count(cs, p) + if p(c) {
            1nat
        } else {
            0nat
        },
{
    assert(cs.push(c).drop_last() =~= cs);
}

proof fn lemma_pair_index_bounds(list: Seq<PairView>, f: Seq<u8>, r: Seq<u8>, k: int)
    requires
        0 <= k,
    ensures
        ({
            let i = pair_index(list, f, r, k);
            &&& (k <= i < list.len() && list[i].0 == f && list[i].1 == r) || i == list.len()
            &&& forall|j: int| k <= j < i ==> !(#[trigger] list[j].0 == f && list[j].1 == r)
        }),
    decreases list.len() - k,
{
    if k < list.len() && !(list[k].0 == f && list[k].1 == r) {
        lemma_pair_index_bounds(list, f, r, k + 1);
    }
}

pub proof fn lemma_sum_update(list: Seq<PairView>, i: int, v: PairView)
    requires
        0 <= i < list.len(),
    ensures
        sum_counts(list.update(i, v)) + list[i].2 == sum_counts(list) + v.2,
    decreases list.len(),
{
    let u = list.update(i, v);
    if i == list.len() - 1 {
        assert(u.drop_last() =~= list.drop_last());
    } else {
        assert(u.drop_last() =~= list.drop_last().update(i, v));
        lemma_sum_update(list.drop_last(), i, v);
    }
}

pub proof fn lemma_count_le_sum(list: Seq<PairView>, i: int)
    requires
        0 <= i < list.len(),
    ensures
        list[i].2 <= sum_counts(list),
    decreases list.len(),
{
    if i < list.len() - 1 {
        lemma_count_le_sum(list.drop_last(), i);
    }
}

/// One more occurrence adds one to the sum of the counts.
pub proof fn lemma_sum_add_pair(list: Seq<PairView>, f: Seq<u8>, r: Seq<u8>)
    ensures
        sum_counts(add_pair(list, f, r)) == sum_counts(list) + 1,
{
    lemma_pair_index_bounds(list, f, r, 0);
    let i = pair_index(list, f, r, 0);
    if i < list.len() {
        lemma_sum_update(list, i, (f, r, list[i].2 + 1));
    } else {
        assert(list.push((f, r, 1)).drop_last() =~= list);
    }
}

/// The pair counts of a run add up to its number of reads.
pub proof fn lemma_sum_pairs(cs: Seq<ClassView>)
    ensures
        sum_counts(pairs_of(cs)) == cs.len(),
    decreases cs.len(),
{
    if cs.len() > 0 {
        lemma_sum_pairs(cs.drop_last());
        lemma_sum_add_pair(pairs_of(cs.drop_last()), cs.last().3, cs.last().4);
    }
}

impl Statistics {
    /// The verdicts counted so far, in arrival order.
    pub closed spec fn seen(&self) -> Seq<ClassView> {
        self.seen@
    }

    pub closed spec fn pairs_view(&self) -> Seq<PairView> {
        self.primer_pairs@.map_values(|p: PairCount| p.view())
    }

    /// The counters are those of the verdicts seen.
    pub closed spec fn wf(&self) -> bool {
        let cs = self.seen@;
        &&& self.total_reads == cs.len()
        &&& self.both_primers_found == count(cs, |c: ClassView| both_found(c))
        &&& self.plus_strand == count(cs, |c: ClassView| on_plus(c))
        &&& self.minus_strand == count(cs, |c: ClassView| on_minus(c))
        &&& self.dimer_count == count(cs, |c: ClassView| dimer(c))
        &&& self.pairs_view() == pairs_of(cs)
    }

    pub fn new() -> (r: Statistics)
        ensures
            r.wf(),
            r.seen() == Seq::<ClassView>::empty(),
    {
        let r = Statistics {
            total_reads: 0,
            both_primers_found: 0,
            plus_strand: 0,
            minus_strand: 0,
            dimer_count: 0,
            primer_pairs: Vec::new(),
            seen: Ghost(Seq::empty()),
        };
        assert(r.pairs_view() =~= Seq::<PairView>::empty());
        r
    }

    /// Counts one more verdict.
    pub fn process(&mut self, c: &Classification)
        requires
            old(self).wf(),
            old(self).seen().len() < usize::MAX,
        ensures
            final(self).wf(),
            final(self).seen() == old(self).seen().push(c.view()),
    {
        let ghost cs = self.seen@;
        let ghost cv = c.view();
        proof {
            lemma_count_le(cs, |x: ClassView| both_found(x));
            lemma_count_le(cs, |x: ClassView| on_plus(x));
            lemma_count_le(cs, |x: ClassView| on_minus(x));
            lemma_count_le(cs, |x: ClassView| dimer(x));
            lemma_count_push(cs, cv, |x: ClassView| both_found(x));
            lemma_count_push(cs, cv, |x: ClassView| on_plus(x));
            lemma_count_push(cs, cv, |x: ClassView| on_minus(x));
            lemma_count_push(cs, cv, |x: ClassView| dimer(x));
            lemma_sum_pairs(cs);
            assert(cs.push(cv).drop_last() =~= cs);
        }
        self.total_reads = self.total_reads + 1;
        if c.forward_match.found && c.reverse_match.found {
            self.both_primers_found = self.both_primers_found + 1;
        }
        match c.strand {
            Strand::Plus => {
                self.plus_strand = self.plus_strand + 1;
            },
            Strand::Minus => {
                self.minus_strand = self.minus_strand + 1;
            },
            Strand::Unknown => {},
        }
        if c.is_dimer {
            self.dimer_count = self.dimer_count + 1;
        }
        self.count_pair(c.forward_primer.as_slice(), c.reverse_primer.as_slice());
        self.seen = Ghost(cs.push(cv));
    }

    fn count_pair(&mut self, f: &[u8], r: &[u8])
        requires
            sum_counts(old(self).pairs_view()) < usize::MAX,
        ensures
            final(self).pairs_view() == add_pair(old(self).pairs_view(), f@, r@),
            final(self).total_reads == old(self).total_reads,
            final(self).both_primers_found == old(self).both_primers_found,
            final(self).plus_strand == old(self).plus_strand,
            final(self).minus_strand == old(self).minus_strand,
            final(self).dimer_count == old(self).dimer_count,
            final(self).seen == old(self).seen,
    {
        let ghost l = self.pairs_view();
        proof {
            lemma_pair_index_bounds(l, f@, r@, 0);
        }
        let mut k: usize = 0;
        while k < self.primer_pairs.len()
            invariant
                k <= self.primer_pairs@.len(),
                self.pairs_view() == l,
                l == old(self).pairs_view(),
                l.len() == self.primer_pairs@.len(),
                sum_counts(l) < usize::MAX,
                self.total_reads == old(self).total_reads,
                self.both_primers_found == old(self).both_primers_found,
                self.plus_strand == old(self).plus_strand,
                self.minus_strand == old(self).minus_strand,
                self.dimer_count == old(self).dimer_count,
                self.seen == old(self).seen,
                pair_index(l, f@, r@, k as int) == pair_index(l, f@, r@, 0),
            decreases self.primer_pairs@.len() - k,
        {
            assert(l[k as int] == self.primer_pairs@[k as int].view());
            if bytes_equal(self.primer_pairs[k].forward_primer.as_slice(), f) && bytes_equal(
                self.primer_pairs[k].reverse_primer.as_slice(),
                r,
            ) {
                proof {
                    lemma_count_le_sum(l, k as int);
                }
                assert(pair_index(l, f@, r@, k as int) == k);
                let n = self.primer_pairs[k].count + 1;
                self.primer_pairs[k].count = n;
                assert(self.primer_pairs@[k as int].forward_primer@ == f@);
                assert(self.pairs_view() =~= l.update(k as int, (f@, r@, l[k as int].2 + 1)));
                return;
            }
            k = k + 1;
        }
        let entry = PairCount { forward_primer: copy_range(f, 0, f.len()), reverse_primer: copy_range(r, 0, r.len()), count: 1 };
        assert(entry.forward_primer@ =~= f@);
        assert(entry.reverse_primer@ =~= r@);
        self.primer_pairs.push(entry);
        assert(self.pairs_view() =~= l.push((f@, r@, 1)));
    }
}

/// In every run the plus-strand, minus-strand and unknown-strand reads add
/// up to all reads, and so do the counts of the primer pairs.
pub proof fn lemma_statistics_totals(cs: Seq<ClassView>)
    ensures
        count(cs, |c: ClassView| on_plus(c)) + count(cs, |c: ClassView| on_minus(c)) + count(
            cs,
            |c: ClassView| on_unknown(c),
        ) == cs.len(),
        sum_counts(pairs_of(cs)) == cs.len(),
    decreases cs.len(),
{
    lemma_sum_pairs(cs);
    if cs.len() > 0 {
        lemma_statistics_totals(cs.drop_last());
    }
}

impl Statistics {
    pub fn total_reads(&self) -> (r: usize)
        requires
            self.wf(),
        ensures
            r == self.seen().len(),
    {
        self.total_reads
    }

    pub fn both_primers_found(&self) -> (r: usize)
        requires
            self.wf(),
        ensures
            r == count(self.seen(), |c: ClassView| both_found(c)),
    {
        self.both_primers_found
    }

    pub fn plus_strand(&self) -> (r: usize)
        requires
            self.wf(),
        ensures
            r == count(self.seen(), |c: ClassView| on_plus(c)),
    {
        self.plus_strand
    }

    pub fn minus_strand(&self) -> (r: usize)
        requires
            self.wf(),
        ensures
            r == count(self.seen(), |c: ClassView| on_minus(c)),
    {
        self.minus_strand
    }

    pub fn dimer_count(&self) -> (r: usize)
        requires
            self.wf(),
        ensures
            r == count(self.seen(), |c: ClassView| dimer(c)),
    {
        self.dimer_count
    }

    /// The pair counts, in order of first occurrence.
    pub fn primer_pairs(&self) -> (r: &Vec<PairCount>)
        requires
            self.wf(),
        ensures
            r@.map_values(|p: PairCount| p.view()) == pairs_of(self.seen()),
    {
        &self.primer_pairs
    }
}

/// The number of result rows written after `n` verdicts under the cap
/// `max_output` (0: no cap).
pub open spec fn rows_for(n: int, max_output: int) -> int {
    if max_output == 0 || n <= max_output {
        n
    } else {
        max_output
    }
}

/// Where verdicts end up: each is counted, and the first ones are marked
/// for a result row.
pub struct ResultSink {
    stats: Statistics,
    written: usize,
    max_output: usize,
}

impl ResultSink {
    pub closed spec fn seen(&self) -> Seq<ClassView> {
        self.stats.seen()
    }

    pub closed spec fn written(&self) -> int {
        self.written as int
    }

    pub closed spec fn max_output(&self) -> int {
        self.max_output as int
    }

    pub closed spec fn wf(&self) -> bool {
        &&& self.stats.wf()
        &&& self.written == rows_for(self.stats.seen().len() as int, self.max_output as int)
    }

    pub fn new(max_output: usize) -> (r: ResultSink)
        ensures
            r.wf(),
            r.seen() == Seq::<ClassView>::empty(),
            r.written() == 0,
            r.max_output() == max_output,
    {
        ResultSink { stats: Statistics::new(), written: 0, max_output }
    }

    /// Counts a verdict; returns whether it gets a result row: it does while
    /// fewer than `max_output` rows were written, or always when
    /// `max_output` is 0.
    pub fn process(&mut self, c: &Classification) -> (write_row: bool)
        requires
            old(self).wf(),
            old(self).seen().len() < usize::MAX,
        ensures
            final(self).wf(),
            final(self).seen() == old(self).seen().push(c.view()),
            final(self).max_output() == old(self).max_output(),
            write_row == (old(self).max_output() == 0 || old(self).written() < old(self).max_output()),
            final(self).written() == old(self).written() + if write_row {
                1int
            } else {
                0int
            },
    {
        self.stats.process(c);
        if self.max_output > 0 && self.written >= self.max_output {
            return false;
        }
        self.written = self.written + 1;
        true
    }

    /// The statistics so far.
    pub fn statistics(&self) -> (r: &Statistics)
        requires
            self.wf(),
        ensures
            r.wf(),
            r.seen() == self.seen(),
    {
        &self.stats
    }

    /// The number of result rows written so far.
    pub fn rows_written(&self) -> (r: usize)
        requires
            self.wf(),
        ensures
            r == self.written(),
            r == rows_for(self.seen().len() as int, self.max_output()),
    {
        self.written
    }
}

/// The verdicts that name the pair `(f, r)`.
pub open spec fn names_pair(f: Seq<u8>, r: Seq<u8>) -> spec_fn(ClassView) -> bool {
    |c: ClassView| c.3 == f && c.4 == r
}

proof fn lemma_pair_index_is(list: Seq<PairView>, f: Seq<u8>, r: Seq<u8>, i: int)
    requires
        0 <= i <= list.len(),
        i < list.len() ==> list[i].0 == f && list[i].1 == r,
        forall|j: int| 0 <= j < i ==> !(#[trigger] list[j].0 == f && list[j].1 == r),
    ensures
        pair_index(list, f, r, 0) == i,
{
    lemma_pair_index_bounds(list, f, r, 0);
    let p = pair_index(list, f, r, 0);
    if p < i {
        assert(list[p].0 == f && list[p].1 == r);
    } else if i < p {
        assert(!(list[i].0 == f && list[i].1 == r));
    }
}

/// The count of each primer pair is the number of verdicts that name it,
/// and a pair that no verdict names has no entry; so the pair counts, like
/// the other counters, do not depend on the order in which verdicts arrive.
pub proof fn lemma_pair_counts(cs: Seq<ClassView>, f: Seq<u8>, r: Seq<u8>)
    ensures
        ({
            let l = pairs_of(cs);
            let i = pair_index(l, f, r, 0);
            &&& i < l.len() ==> l[i].2 == count(cs, names_pair(f, r))
            &&& i >= l.len() ==> count(cs, names_pair(f, r)) == 0
        }),
    decreases cs.len(),
{
    if cs.len() > 0 {
        let pre = cs.drop_last();
        let c = cs.last();
        assert(pre.push(c) =~= cs);
        lemma_pair_counts(pre, f, r);
        lemma_count_push(pre, c, names_pair(f, r));
        let l0 = pairs_of(pre);
        let l = pairs_of(cs);
        assert(l == add_pair(l0, c.3, c.4));
        lemma_pair_index_bounds(l0, f, r, 0);
        lemma_pair_index_bounds(l0, c.3, c.4, 0);
        let i0 = pair_index(l0, f, r, 0);
        let j = pair_index(l0, c.3, c.4, 0);
        if c.3 == f && c.4 == r {
            assert(j == i0);
            if i0 < l0.len() {
                assert forall|k: int| 0 <= k < i0 implies !(#[trigger] l[k].0 == f && l[k].1 == r) by {
                    assert(l[k] == l0[k]);
                }
                lemma_pair_index_is(l, f, r, i0);
            } else {
                assert forall|k: int| 0 <= k < i0 implies !(#[trigger] l[k].0 == f && l[k].1 == r) by {
                    assert(l[k] == l0[k]);
                }
                lemma_pair_index_is(l, f, r, i0);
            }
        } else {
            assert(!names_pair(f, r)(c));
            if j < l0.len() {
                assert forall|k: int| 0 <= k < i0 implies !(#[trigger] l[k].0 == f && l[k].1 == r) by {
                    assert(l[k].0 == l0[k].0 && l[k].1 == l0[k].1);
                }
                if i0 < l0.len() {
                    assert(l[i0].0 == l0[i0].0 && l[i0].1 == l0[i0].1);
                    assert(i0 != j);
                    assert(l[i0] == l0[i0]);
                }
                lemma_pair_index_is(l, f, r, i0);
            } else {
                if i0 < l0.len() {
                    assert forall|k: int| 0 <= k < i0 implies !(#[trigger] l[k].0 == f && l[k].1 == r) by {
                        assert(l[k] == l0[k]);
                    }
                    assert(l[i0] == l0[i0]);
                    lemma_pair_index_is(l, f, r, i0);
                } else {
                    assert forall|k: int| 0 <= k < l.len() implies !(#[trigger] l[k].0 == f && l[k].1 == r) by {
                        if k < l0.len() {
                            assert(l[k] == l0[k]);
                        }
                    }
                    lemma_pair_index_is(l, f, r, l.len() as int);
                }
            }
        }
    }
}

proof fn lemma_count_remove(cs: Seq<ClassView>, i: int, p: spec_fn(ClassView) -> bool)
    requires
        0 <= i < cs.len(),
    ensures
        count(cs, p) == count(cs.remove(i), p) + if p(cs[i]) {
            1nat
        } else {
            0nat
        },
    decreases cs.len(),
{
    if i == cs.len() - 1 {
        assert(cs.remove(i) =~= cs.drop_last());
    } else {
        assert(cs.remove(i).drop_last() =~= cs.drop_last().remove(i));
        assert(cs.remove(i).last() == cs.last());
        lemma_count_remove(cs.drop_last(), i, p);
    }
}

/// Two arrival orders of the same verdicts (the same multiset) give the
/// same counts, whatever is counted: reads, reads with both primers, each
/// strand, dimers, and each primer pair.
pub proof fn lemma_counts_ignore_order(a: Seq<ClassView>, b: Seq<ClassView>, p: spec_fn(ClassView) -> bool)
    requires
        a.to_multiset() == b.to_multiset(),
    ensures
        a.len() == b.len(),
        count(a, p) == count(b, p),
    decreases a.len(),
{
    broadcast use vstd::seq_lib::group_to_multiset_ensures;
    broadcast use vstd::multiset::group_multiset_axioms;

    if a.len() == 0 {
        assert(b.to_multiset().len() == 0);
    } else {
        let x = a.last();
        let a0 = a.drop_last();
        assert(a0.push(x) =~= a);
        vstd::seq_lib::to_multiset_build(a0, x);
        assert(b.to_multiset().count(x) > 0);
        assert(b.contains(x));
        let i = choose|i: int| 0 <= i < b.len() && b[i] == x;
        vstd::seq_lib::to_multiset_remove(b, i);
        assert(a0.to_multiset() =~= b.remove(i).to_multiset());
        lemma_counts_ignore_order(a0, b.remove(i), p);
        lemma_count_remove(b, i, p);
        assert(a.drop_last() == a0);
    }
}

} // verus!
