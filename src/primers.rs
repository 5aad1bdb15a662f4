//! The primer table: the catalog of primers, loaded once and read-only
//! afterwards.
//!
//! A catalog line is `name<TAB>sequence`. Blank lines and lines starting with
//! `#` are skipped; a line without a tab, or whose sequence holds anything
//! but `A`, `T`, `G`, `C`, `N` (in either case), is dropped. The name loses
//! leading byte-order marks and surrounding whitespace; the sequence is
//! trimmed and upper-cased and stored with its reverse complement. A later
//! line for a name replaces the earlier one. The table is kept ordered by
//! name, which fixes the order in which primer pairs are tried.
use vstd::prelude::*;
use crate::dna::{is_base, is_upper_base, revcomp, revcomp_spec};
use crate::text::{trim_spec, trim, copy_range};

verus! {

/// Byte-wise lexicographic order; a proper prefix comes first.
pub open spec fn lex_lt(a: Seq<u8>, b: Seq<u8>) -> bool
    decreases a.len(),
{
    if a.len() == 0 {
        b.len() > 0
    } else if b.len() == 0 {
        false
    } else if a[0] != b[0] {
        a[0] < b[0]
    } else {
        lex_lt(a.drop_first(), b.drop_first())
    }
}

pub proof fn lemma_lex_irreflexive(a: Seq<u8>)
    ensures
        !lex_lt(a, a),
    decreases a.len(),
{
    if a.len() > 0 {
        lemma_lex_irreflexive(a.drop_first());
    }
}

/// Of two different byte strings, exactly one comes first.
pub proof fn lemma_lex_total(a: Seq<u8>, b: Seq<u8>)
    ensures
        a != b ==> (lex_lt(a, b) || lex_lt(b, a)),
        !(lex_lt(a, b) && lex_lt(b, a)),
    decreases a.len(),
{
    if a.len() > 0 && b.len() > 0 {
        lemma_lex_total(a.drop_first(), b.drop_first());
        if a[0] == b[0] && a != b {
            assert(a =~= seq![a[0]] + a.drop_first());
            assert(b =~= seq![b[0]] + b.drop_first());
            if a.drop_first() == b.drop_first() {
                assert(a == b);
            }
        }
    } else if a.len() == 0 && b.len() == 0 {
        assert(a =~= b);
    }
}

/// Whether `a` comes before `b` in byte-wise lexicographic order.
pub fn lex_less(a: &[u8], b: &[u8]) -> (r: bool)
    ensures
        r == lex_lt(a@, b@),
{
    let mut i: usize = 0;
    assert(a@.subrange(0, a@.len() as int) =~= a@);
    assert(b@.subrange(0, b@.len() as int) =~= b@);
    while i < a.len() && i < b.len() && a[i] == b[i]
        invariant
            i <= a@.len(),
            i <= b@.len(),
            lex_lt(a@.subrange(i as int, a@.len() as int), b@.subrange(i as int, b@.len() as int))
                == lex_lt(a@, b@),
        decreases a@.len() - i,
    {
        assert(a@.subrange(i as int, a@.len() as int).drop_first() =~= a@.subrange(i + 1, a@.len() as int));
        assert(b@.subrange(i as int, b@.len() as int).drop_first() =~= b@.subrange(i + 1, b@.len() as int));
        i = i + 1;
    }
    if i == a.len() {
        i < b.len()
    } else if i == b.len() {
        false
    } else {
        a[i] < b[i]
    }
}

/// The byte upper-cased, for ASCII letters.
pub open spec fn upper(b: u8) -> u8 {
    if 97u8 <= b && b <= 122u8 {
        (b - 32) as u8
    } else {
        b
    }
}

pub open spec fn upper_seq(s: Seq<u8>) -> Seq<u8> {
    Seq::new(s.len(), |i: int| upper(s[i]))
}

pub open spec fn all_bases(s: Seq<u8>) -> bool {
    forall|i: int| 0 <= i < s.len() ==> is_base(#[trigger] s[i])
}

pub open spec fn all_upper_bases(s: Seq<u8>) -> bool {
    forall|i: int| 0 <= i < s.len() ==> is_upper_base(#[trigger] s[i])
}

/// `s` without leading UTF-8 byte-order marks (`EF BB BF`).
pub open spec fn strip_bom(s: Seq<u8>) -> Seq<u8>
    decreases s.len(),
{
    if s.len() >= 3 && s[0] == 0xefu8 && s[1] == 0xbbu8 && s[2] == 0xbfu8 {
        strip_bom(s.subrange(3, s.len() as int))
    } else {
        s
    }
}

/// The index of the first tab at or after `i` (or the length).
pub open spec fn next_tab(s: Seq<u8>, i: int) -> int
    decreases s.len() - i,
{
    if 0 <= i < s.len() && s[i] != 9u8 {
        next_tab(s, i + 1)
    } else {
        i
    }
}

/// What a catalog line holds.
#[derive(Clone, Copy, Debug, PartialEq, Eq, Structural)]
pub enum LineKind {
    /// Blank or a comment: skipped without notice.
    Skipped,
    /// No tab: dropped with a warning.
    Malformed,
    /// A sequence with a byte outside the bases: dropped with a warning.
    InvalidSequence,
    /// An entry of the table.
    Entry,
}

pub open spec fn line_kind(line: Seq<u8>) -> LineKind {
    if trim_spec(line).len() == 0 || (line.len() > 0 && line[0] == 35u8) {
        LineKind::Skipped
    } else if next_tab(line, 0) >= line.len() {
        LineKind::Malformed
    } else if !all_bases(line_sequence(line)) {
        LineKind::InvalidSequence
    } else {
        LineKind::Entry
    }
}

/// The name field of a line, cleaned.
pub open spec fn line_name(line: Seq<u8>) -> Seq<u8> {
    trim_spec(strip_bom(line.subrange(0, next_tab(line, 0))))
}

/// The sequence field of a line (the second field), trimmed.
pub open spec fn line_sequence(line: Seq<u8>) -> Seq<u8> {
    let t = next_tab(line, 0);
    trim_spec(line.subrange(t + 1, next_tab(line, t + 1)))
}

/// A table entry: name, forward sequence, reverse complement.
pub type EntryView = (Seq<u8>, Seq<u8>, Seq<u8>);

/// The entry a line gives, with an upper-cased sequence.
pub open spec fn line_entry(line: Seq<u8>) -> EntryView {
    let s = upper_seq(line_sequence(line));
    (line_name(line), s, revcomp_spec(s))
}

/// `t` with `e` put in its place by name: replacing an entry of the same
/// name, or inserted before the first entry with a greater name.
pub open spec fn insert_sorted(t: Seq<EntryView>, e: EntryView) -> Seq<EntryView>
    decreases t.len(),
{
    if t.len() == 0 {
        seq![e]
    } else if lex_lt(e.0, t[0].0) {
        seq![e] + t
    } else if e.0 == t[0].0 {
        seq![e] + t.drop_first()
    } else {
        seq![t[0]] + insert_sorted(t.drop_first(), e)
    }
}

/// The table that a sequence of catalog lines gives.
pub open spec fn table_of(lines: Seq<Seq<u8>>) -> Seq<EntryView>
    decreases lines.len(),
{
    if lines.len() == 0 {
        Seq::empty()
    } else {
        let t = table_of(lines.drop_last());
        let line = lines.last();
        if line_kind(line) == LineKind::Entry {
            insert_sorted(t, line_entry(line))
        } else {
            t
        }
    }
}

/// Names strictly increasing; each forward sequence made of upper-case
/// bases and stored with its reverse complement.
pub open spec fn table_wf(t: Seq<EntryView>) -> bool {
    &&& forall|i: int| 0 <= i < t.len() - 1 ==> lex_lt(#[trigger] t[i].0, t[i + 1].0)
    &&& forall|i: int|
        0 <= i < t.len() ==> all_upper_bases(#[trigger] t[i].1) && t[i].2 == revcomp_spec(t[i].1)
}

#[derive(Clone, Debug)]
pub struct PrimerEntry {
    pub name: Vec<u8>,
    pub forward: Vec<u8>,
    pub reverse_complement: Vec<u8>,
}

impl PrimerEntry {
    pub open spec fn view(&self) -> EntryView {
        (self.name@, self.forward@, self.reverse_complement@)
    }
}

/// The primer table, ordered by name.
pub struct PrimerTable {
    entries: Vec<PrimerEntry>,
}

impl PrimerTable {
    pub closed spec fn view(&self) -> Seq<EntryView> {
        self.entries@.map_values(|e: PrimerEntry| e.view())
    }

    pub open spec fn wf(&self) -> bool {
        table_wf(self@)
    }

    pub fn new() -> (r: PrimerTable)
        ensures
            r@ == Seq::<EntryView>::empty(),
            r.wf(),
    {
        let r = PrimerTable { entries: Vec::new() };
        assert(r@ =~= Seq::<EntryView>::empty());
        r
    }

    pub fn len(&self) -> (r: usize)
        ensures
            r == self@.len(),
    {
        self.entries.len()
    }

    /// The entry at index `i`, in name order.
    pub fn entry(&self, i: usize) -> (r: &PrimerEntry)
        requires
            i < self@.len(),
        ensures
            r.view() == self@[i as int],
    {
        &self.entries[i]
    }
}

/// Inserting at the place found by scanning past smaller names.
pub proof fn lemma_insert_sorted_at(t: Seq<EntryView>, e: EntryView, p: int)
    requires
        0 <= p <= t.len(),
        forall|i: int| 0 <= i < p ==> lex_lt(#[trigger] t[i].0, e.0),
        p == t.len() || !lex_lt(t[p].0, e.0),
    ensures
        insert_sorted(t, e) == if p < t.len() && t[p].0 == e.0 {
            t.update(p, e)
        } else {
            t.insert(p, e)
        },
    decreases p,
{
    if p == 0 {
        if t.len() == 0 {
            assert(t.insert(0, e) =~= seq![e]);
        } else if lex_lt(e.0, t[0].0) {
            assert(t.insert(0, e) =~= seq![e] + t);
        } else if e.0 == t[0].0 {
            assert(t.update(0, e) =~= seq![e] + t.drop_first());
        } else {
            lemma_lex_total(e.0, t[0].0);
        }
    } else {
        let u = t.drop_first();
        assert(lex_lt(t[0].0, e.0));
        lemma_lex_total(t[0].0, e.0);
        lemma_lex_irreflexive(e.0);
        assert forall|i: int| 0 <= i < p - 1 implies lex_lt(#[trigger] u[i].0, e.0) by {
            assert(u[i] == t[i + 1]);
        }
        lemma_insert_sorted_at(u, e, p - 1);
        if p < t.len() && t[p].0 == e.0 {
            assert(t.update(p, e) =~= seq![t[0]] + u.update(p - 1, e));
        } else {
            assert(t.insert(p, e) =~= seq![t[0]] + u.insert(p - 1, e));
        }
    }
}

pub open spec fn entry_wf(e: EntryView) -> bool {
    all_upper_bases(e.1) && e.2 == revcomp_spec(e.1)
}

/// Putting a well-formed entry in its place keeps the table well formed.
pub proof fn lemma_insert_sorted_wf(t: Seq<EntryView>, e: EntryView, p: int)
    requires
        table_wf(t),
        entry_wf(e),
        0 <= p <= t.len(),
        forall|i: int| 0 <= i < p ==> lex_lt(#[trigger] t[i].0, e.0),
        p == t.len() || !lex_lt(t[p].0, e.0),
    ensures
        table_wf(insert_sorted(t, e)),
{
    lemma_insert_sorted_at(t, e, p);
    let r = insert_sorted(t, e);
    if p < t.len() && t[p].0 == e.0 {
        assert forall|i: int| 0 <= i < r.len() - 1 implies lex_lt(#[trigger] r[i].0, r[i + 1].0) by {
            if i == p - 1 {
                assert(lex_lt(t[i].0, t[i + 1].0));
            } else if i == p {
                assert(lex_lt(t[i].0, t[i + 1].0));
            } else {
                assert(lex_lt(t[i].0, t[i + 1].0));
            }
        }
    } else {
        if p < t.len() {
            lemma_lex_total(t[p].0, e.0);
        }
        assert forall|i: int| 0 <= i < r.len() - 1 implies lex_lt(#[trigger] r[i].0, r[i + 1].0) by {
            if i < p - 1 {
                assert(lex_lt(t[i].0, t[i + 1].0));
            } else if i == p - 1 {
            } else if i == p {
            } else {
                assert(lex_lt(t[i - 1].0, t[i].0));
            }
        }
    }
}

impl PrimerTable {
    /// Puts an entry in its place by name, replacing one of the same name.
    pub fn insert(&mut self, e: PrimerEntry)
        requires
            old(self).wf(),
            entry_wf(e.view()),
        ensures
            final(self)@ == insert_sorted(old(self)@, e.view()),
            final(self).wf(),
    {
        let ghost t = self@;
        let mut p: usize = 0;
        while p < self.entries.len() && lex_less(self.entries[p].name.as_slice(), e.name.as_slice())
            invariant
                p <= self@.len(),
                self@ == t,
                self.entries@.len() == t.len(),
                forall|i: int| 0 <= i < p ==> lex_lt(#[trigger] t[i].0, e.name@),
            decreases self.entries@.len() - p,
        {
            assert(t[p as int].0 == self.entries@[p as int].name@);
            p = p + 1;
        }
        proof {
            if p < t.len() {
                assert(t[p as int].0 == self.entries@[p as int].name@);
            }
            lemma_insert_sorted_at(t, e.view(), p as int);
            lemma_insert_sorted_wf(t, e.view(), p as int);
        }
        if p < self.entries.len() && !lex_less(e.name.as_slice(), self.entries[p].name.as_slice()) {
            proof {
                lemma_lex_total(e.name@, t[p as int].0);
            }
            self.entries[p] = e;
            assert(self@ =~= t.update(p as int, e.view()));
        } else {
            self.entries.insert(p, e);
            assert(self@ =~= t.insert(p as int, e.view()));
        }
    }
}

/// The index of the first tab at or after `i`.
fn find_tab(s: &[u8], i: usize) -> (r: usize)
    requires
        i <= s@.len(),
    ensures
        r == next_tab(s@, i as int),
        i <= r <= s@.len(),
{
    let mut k = i;
    while k < s.len() && s[k] != 9u8
        invariant
            i <= k <= s@.len(),
            next_tab(s@, k as int) == next_tab(s@, i as int),
        decreases s@.len() - k,
    {
        k = k + 1;
    }
    k
}

/// `s` without leading byte-order marks.
fn without_bom(s: &[u8]) -> (r: Vec<u8>)
    ensures
        r@ == strip_bom(s@),
{
    let mut i: usize = 0;
    let n = s.len();
    assert(s@.subrange(0, n as int) =~= s@);
    while n - i >= 3 && s[i] == 0xefu8 && s[i + 1] == 0xbbu8 && s[i + 2] == 0xbfu8
        invariant
            i <= n,
            n == s@.len(),
            strip_bom(s@.subrange(i as int, n as int)) == strip_bom(s@),
        decreases n - i,
    {
        assert(s@.subrange(i as int, n as int).subrange(3, n - i) =~= s@.subrange(i + 3, n as int));
        i = i + 3;
    }
    copy_range(s, i, n)
}

fn is_base_byte(b: u8) -> (r: bool)
    ensures
        r == is_base(b),
{
    b == 65u8 || b == 67u8 || b == 71u8 || b == 84u8 || b == 78u8 || b == 97u8 || b == 99u8
        || b == 103u8 || b == 116u8 || b == 110u8
}

fn only_bases(s: &[u8]) -> (r: bool)
    ensures
        r == all_bases(s@),
{
    let mut i: usize = 0;
    while i < s.len()
        invariant
            i <= s@.len(),
            forall|k: int| 0 <= k < i ==> is_base(#[trigger] s@[k]),
        decreases s@.len() - i,
    {
        if !is_base_byte(s[i]) {
            return false;
        }
        i = i + 1;
    }
    true
}

/// The sequence in upper case.
fn to_upper(s: &[u8]) -> (r: Vec<u8>)
    ensures
        r@ == upper_seq(s@),
{
    let mut r: Vec<u8> = Vec::new();
    let mut i: usize = 0;
    while i < s.len()
        invariant
            i <= s@.len(),
            r@ == upper_seq(s@).subrange(0, i as int),
        decreases s@.len() - i,
    {
        let b = s[i];
        let u: u8 = if 97u8 <= b && b <= 122u8 {
            b - 32
        } else {
            b
        };
        r.push(u);
        i = i + 1;
        assert(r@ =~= upper_seq(s@).subrange(0, i as int));
    }
    assert(upper_seq(s@).subrange(0, i as int) =~= upper_seq(s@));
    r
}

pub proof fn lemma_upper_bases(s: Seq<u8>)
    requires
        all_bases(s),
    ensures
        all_upper_bases(upper_seq(s)),
        entry_wf((Seq::empty(), upper_seq(s), revcomp_spec(upper_seq(s)))),
{
}

/// Reads one catalog line (without its line ending): what kind of line it
/// is, and the entry it gives.
pub fn parse_catalog_line(line: &[u8]) -> (r: (LineKind, Option<PrimerEntry>))
    ensures
        r.0 == line_kind(line@),
        r.0 == LineKind::Entry <==> r.1 is Some,
        r.1 matches Some(e) ==> e.view() == line_entry(line@) && entry_wf(e.view()),
{
    let t = trim(line);
    if t.len() == 0 || (line.len() > 0 && line[0] == 35u8) {
        return (LineKind::Skipped, None);
    }
    let tab = find_tab(line, 0);
    if tab >= line.len() {
        return (LineKind::Malformed, None);
    }
    let tab2 = find_tab(line, tab + 1);
    let field = copy_range(line, tab + 1, tab2);
    let seq = trim(field.as_slice());
    if !only_bases(seq.as_slice()) {
        return (LineKind::InvalidSequence, None);
    }
    let name_field = copy_range(line, 0, tab);
    let bare = without_bom(name_field.as_slice());
    let name = trim(bare.as_slice());
    let forward = to_upper(seq.as_slice());
    let reverse_complement = revcomp(forward.as_slice());
    proof {
        lemma_upper_bases(seq@);
    }
    (LineKind::Entry, Some(PrimerEntry { name, forward, reverse_complement }))
}

/// Loading a catalog that gives no entry.
#[derive(Clone, Copy, Debug, PartialEq, Eq, Structural)]
pub enum CatalogError {
    EmptyPrimerTable,
}

/// Lines dropped with a warning.
pub open spec fn is_rejected(k: LineKind) -> bool {
    k == LineKind::Malformed || k == LineKind::InvalidSequence
}

/// The indices of the lines dropped with a warning, in order.
pub open spec fn rejected_of(lines: Seq<Seq<u8>>) -> Seq<usize>
    decreases lines.len(),
{
    if lines.len() == 0 {
        Seq::empty()
    } else if is_rejected(line_kind(lines.last())) {
        rejected_of(lines.drop_last()).push((lines.len() - 1) as usize)
    } else {
        rejected_of(lines.drop_last())
    }
}

pub open spec fn lines_view(lines: Seq<Vec<u8>>) -> Seq<Seq<u8>> {
    lines.map_values(|l: Vec<u8>| l@)
}

/// A loaded table and the lines that were dropped with a warning.
pub struct PrimerLoad {
    pub table: PrimerTable,
    pub rejected: Vec<usize>,
}

/// Loads the primer table from the catalog's lines (without line endings).
/// Fails when no line gives an entry.
pub fn load_primers(lines: &Vec<Vec<u8>>) -> (r: Result<PrimerLoad, CatalogError>)
    ensures
        r is Ok <==> table_of(lines_view(lines@)).len() > 0,
        r matches Ok(l) ==> {
            &&& l.table@ == table_of(lines_view(lines@))
            &&& l.table.wf()
            &&& l.rejected@ == rejected_of(lines_view(lines@))
        },
        r matches Err(e) ==> e == CatalogError::EmptyPrimerTable,
{
    let mut table = PrimerTable::new();
    let mut rejected: Vec<usize> = Vec::new();
    let mut i: usize = 0;
    while i < lines.len()
        invariant
            i <= lines@.len(),
            table.wf(),
            table@ == table_of(lines_view(lines@).subrange(0, i as int)),
            rejected@ == rejected_of(lines_view(lines@).subrange(0, i as int)),
        decreases lines@.len() - i,
    {
        let (kind, entry) = parse_catalog_line(lines[i].as_slice());
        proof {
            let pre = lines_view(lines@).subrange(0, i + 1);
            assert(pre.drop_last() =~= lines_view(lines@).subrange(0, i as int));
            assert(pre.last() == lines@[i as int]@);
        }
        match entry {
            Some(e) => {
                table.insert(e);
            },
            None => {},
        }
        if kind == LineKind::Malformed || kind == LineKind::InvalidSequence {
            rejected.push(i);
        }
        i = i + 1;
    }
    assert(lines_view(lines@).subrange(0, i as int) =~= lines_view(lines@));
    if table.len() == 0 {
        Err(CatalogError::EmptyPrimerTable)
    } else {
        Ok(PrimerLoad { table, rejected })
    }
}

} // verus!
