use primer_scan::align::{format_alignment, hit_from_outcome, render_alignment, AlignOutcome, AlignmentHit};
use primer_scan::classify::{analyze_read, classify_hits, create_primer_match, Strand};
use primer_scan::fastq::FastqRecord;
use primer_scan::primers::{load_primers, parse_catalog_line, CatalogError, LineKind, PrimerTable};

fn lines(text: &[&str]) -> Vec<Vec<u8>> {
    text.iter().map(|l| l.as_bytes().to_vec()).collect()
}

fn table(text: &[&str]) -> PrimerTable {
    load_primers(&lines(text)).ok().unwrap().table
}

fn found(start: i32, end: i32, dist: i32) -> AlignOutcome {
    let len = (end - start + 1) as usize;
    AlignOutcome {
        status: 0,
        edit_distance: dist,
        start_locations: Some(vec![start]),
        end_locations: Some(vec![end]),
        alignment: Some(vec![0u8; len]),
    }
}

fn missing() -> AlignOutcome {
    AlignOutcome { status: 0, edit_distance: -1, start_locations: None, end_locations: None, alignment: None }
}

fn hit(pos: usize, dist: usize) -> Option<AlignmentHit> {
    Some(AlignmentHit { edit_distance: dist, position: pos, query_aligned: Vec::new(), target_aligned: Vec::new() })
}

#[test]
fn invalid_only_row_gives_empty_table() {
    let r = load_primers(&lines(&["Fa\tACGTX"]));
    assert!(matches!(r, Err(CatalogError::EmptyPrimerTable)));
}

#[test]
fn invalid_row_is_dropped_with_warning() {
    let l = load_primers(&lines(&["Fa\tACGTX", "Fb\tacgtn"])).ok().unwrap();
    assert_eq!(l.rejected, vec![0]);
    assert_eq!(l.table.len(), 1);
    assert_eq!(l.table.entry(0).name, b"Fb".to_vec());
    assert_eq!(l.table.entry(0).forward, b"ACGTN".to_vec());
    assert_eq!(l.table.entry(0).reverse_complement, b"NACGT".to_vec());
}

#[test]
fn catalog_lines_kinds() {
    assert_eq!(parse_catalog_line(b"").0, LineKind::Skipped);
    assert_eq!(parse_catalog_line(b"   ").0, LineKind::Skipped);
    assert_eq!(parse_catalog_line(b"# comment\tACGT").0, LineKind::Skipped);
    assert_eq!(parse_catalog_line(b"name ACGT").0, LineKind::Malformed);
    assert_eq!(parse_catalog_line(b"name\tAC GT").0, LineKind::InvalidSequence);
    let (k, e) = parse_catalog_line(b"\xef\xbb\xbf Fwd1 \t acgt \textra");
    assert_eq!(k, LineKind::Entry);
    let e = e.unwrap();
    assert_eq!(e.name, b"Fwd1".to_vec());
    assert_eq!(e.forward, b"ACGT".to_vec());
    assert_eq!(e.reverse_complement, b"ACGT".to_vec());
}

#[test]
fn table_is_sorted_and_later_rows_replace() {
    let l = load_primers(&lines(&["b\tAAAA", "", "a\tCCCC", "#x", "ab\tGG", "b\tTT", "bad"])).ok().unwrap();
    assert_eq!(l.rejected, vec![6]);
    let names: Vec<Vec<u8>> = (0..l.table.len()).map(|i| l.table.entry(i).name.clone()).collect();
    assert_eq!(names, vec![b"a".to_vec(), b"ab".to_vec(), b"b".to_vec()]);
    assert_eq!(l.table.entry(2).forward, b"TT".to_vec());
    assert_eq!(l.table.entry(2).reverse_complement, b"AA".to_vec());
}

#[test]
fn plus_strand_dimer_scenario() {
    let t = table(&["F\tACGTACGT", "R\tTTTTCCCC"]);
    let mut seq = b"ACGTACGT".to_vec();
    while seq.len() < 50 {
        seq.push(b'T');
    }
    seq.extend_from_slice(b"GGGGAAAA");
    seq.extend_from_slice(b"TTTTT");
    let read = FastqRecord::new(b"read1".to_vec(), seq.clone(), vec![b'I'; seq.len()]);
    // F's forward is found at 0; R's forward is absent; F's reverse
    // complement (the same bases) at 0; R's reverse complement at 50.
    let fwd = vec![found(0, 7, 0), missing()];
    let rc = vec![found(0, 7, 0), found(50, 57, 0)];
    let c = analyze_read(&read, &t, &fwd, &rc, 3, 100);
    assert_eq!(c.strand, Strand::Plus);
    assert_eq!(c.forward_primer, b"F".to_vec());
    assert_eq!(c.reverse_primer, b"R".to_vec());
    assert_eq!(c.forward_match.position, Some(0));
    assert_eq!(c.reverse_match.position, Some(50));
    assert_eq!(c.distance, Some(50));
    assert!(c.is_dimer);
    assert_eq!(c.length, seq.len());
    assert_eq!(c.read_id, b"read1".to_vec());
    assert_eq!(c.forward_match.alignment, b"ACGTACGT||||||||||ACGTACGT".to_vec());
}

#[test]
fn no_pair_gives_unknown() {
    let t = table(&["F\tACGT", "R\tGGGG"]);
    let c = classify_hits(&t, &vec![hit(10, 0), None], &vec![None, hit(5, 0)], b"x", 40, 100);
    assert_eq!(c.strand, Strand::Unknown);
    assert_eq!(c.forward_primer, b"-".to_vec());
    assert_eq!(c.reverse_primer, b"-".to_vec());
    assert!(!c.forward_match.found && !c.reverse_match.found);
    assert_eq!(c.forward_match.alignment, b"-".to_vec());
    assert_eq!(c.distance, None);
    assert!(!c.is_dimer);
}

#[test]
fn minus_strand_and_far_apart_is_no_dimer() {
    let t = table(&["A\tACGT", "B\tGGGG"]);
    // plus: A fwd + B rc: B rc missing. minus: B fwd at 3, A rc at 250.
    let c = classify_hits(&t, &vec![hit(1, 0), hit(3, 1)], &vec![hit(250, 2), None], b"m", 300, 100);
    assert_eq!(c.strand, Strand::Minus);
    assert_eq!(c.forward_primer, b"B".to_vec());
    assert_eq!(c.reverse_primer, b"A".to_vec());
    assert_eq!(c.distance, Some(247));
    assert!(!c.is_dimer);
    assert_eq!(c.forward_match.errors, Some(1));
    assert_eq!(c.reverse_match.errors, Some(2));
}

#[test]
fn lower_score_wins_and_ties_keep_first() {
    let t = table(&["A\tAAAA", "B\tCCCC", "C\tGGGG"]);
    // (A,B) plus: score 3; (A,C) plus: score 1; (B,C) plus: score 1 (later).
    let fwd = vec![hit(0, 1), hit(2, 1), None];
    let rc = vec![None, hit(10, 2), hit(20, 0)];
    let c = classify_hits(&t, &fwd, &rc, b"s", 30, 5);
    assert_eq!(c.strand, Strand::Plus);
    assert_eq!(c.forward_primer, b"A".to_vec());
    assert_eq!(c.reverse_primer, b"C".to_vec());
    assert_eq!(c.distance, Some(20));
    assert!(!c.is_dimer);
}

#[test]
fn forward_must_start_first() {
    let t = table(&["A\tAAAA", "B\tCCCC"]);
    let c = classify_hits(&t, &vec![hit(10, 0), None], &vec![None, hit(10, 0)], b"o", 30, 5);
    assert_eq!(c.strand, Strand::Unknown);
}

#[test]
fn single_primer_table_is_unknown() {
    let t = table(&["A\tAAAA"]);
    let c = classify_hits(&t, &vec![hit(0, 0)], &vec![hit(9, 0)], b"one", 30, 5);
    assert_eq!(c.strand, Strand::Unknown);
}

#[test]
fn outcome_checks() {
    let q = b"ACGT";
    let target = b"TTACGTTT";
    let h = hit_from_outcome(q, target, &found(2, 5, 0), 3).unwrap();
    assert_eq!(h.position, 2);
    assert_eq!(h.edit_distance, 0);
    assert_eq!(h.query_aligned, b"ACGT".to_vec());
    assert_eq!(h.target_aligned, b"ACGT".to_vec());
    assert!(hit_from_outcome(q, target, &found(2, 5, 4), 3).is_none());
    assert!(hit_from_outcome(q, target, &missing(), 3).is_none());
    assert!(hit_from_outcome(q, target, &found(2, 8, 0), 3).is_none());
    let mut bad = found(2, 5, 0);
    bad.status = 1;
    assert!(hit_from_outcome(q, target, &bad, 3).is_none());
    let mut nopath = found(2, 5, 1);
    nopath.alignment = None;
    let h = hit_from_outcome(q, target, &nopath, 3).unwrap();
    assert!(h.query_aligned.is_empty());
}

#[test]
fn alignment_layout() {
    // match, insertion to the read, aligned pair, deletion from the read, match
    let (qa, ta) = format_alignment(b"ACGT", b"AxCTT", &[0, 1, 3, 2, 0]);
    assert_eq!(qa, b"A-CGT".to_vec());
    assert_eq!(ta, b"AxC-T".to_vec());
    assert_eq!(render_alignment(&qa, &ta), b"A-CGT|| | ||AxC-T".to_vec());
    let (qa, ta) = format_alignment(b"AG", b"AC", &[0, 3]);
    assert_eq!(render_alignment(&qa, &ta), b"AG||*|AC".to_vec());
    let (qa, ta) = format_alignment(b"AC", b"ACGG", &[0, 0, 1, 1]);
    assert_eq!(qa, b"AC--".to_vec());
    assert_eq!(ta, b"ACGG".to_vec());
    let m = create_primer_match(None);
    assert!(!m.found);
    assert_eq!(m.alignment, b"-".to_vec());
}

#[test]
fn same_inputs_same_verdict() {
    let t = table(&["F\tACGTACGT", "R\tTTTTCCCC", "Q\tGGGGCCCC"]);
    let seq = b"ACGTACGTTTTTTTTTTTGGGGAAAA".to_vec();
    let read = FastqRecord::new(b"d".to_vec(), seq.clone(), vec![b'I'; seq.len()]);
    let fwd = vec![found(0, 7, 1), missing(), missing()];
    let rc = vec![found(0, 7, 1), missing(), found(18, 25, 0)];
    let a = analyze_read(&read, &t, &fwd, &rc, 3, 10);
    let b = analyze_read(&read, &t, &fwd, &rc, 3, 10);
    assert_eq!(a.strand, b.strand);
    assert_eq!(a.forward_primer, b.forward_primer);
    assert_eq!(a.reverse_primer, b.reverse_primer);
    assert_eq!(a.distance, b.distance);
    assert_eq!(a.forward_match.alignment, b.forward_match.alignment);
    assert_eq!(a.is_dimer, b.is_dimer);
    // table order is F, Q, R: the pair (F, R) is found on the plus strand.
    assert_eq!(a.forward_primer, b"F".to_vec());
    assert_eq!(a.reverse_primer, b"R".to_vec());
    assert_eq!(a.distance, Some(18));
    assert!(!a.is_dimer);
}

#[test]
fn match_line_stops_at_shorter_line() {
    assert_eq!(render_alignment(b"ACG", b"AC"), b"ACG||||AC".to_vec());
    let h = AlignmentHit { edit_distance: 1, position: 4, query_aligned: b"AT".to_vec(), target_aligned: b"AG-".to_vec() };
    let m = create_primer_match(Some(&h));
    assert!(m.found);
    assert_eq!(m.position, Some(4));
    assert_eq!(m.errors, Some(1));
    assert_eq!(m.alignment, b"AT||*|AG-".to_vec());
}
