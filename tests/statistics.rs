use primer_scan::classify::{Classification, PrimerMatch, Strand};
use primer_scan::fastq::{FastqError, FastqRecord};
use primer_scan::merge::MismatchRate;
use primer_scan::pipeline::{on_first, on_mate, pair_mates, PairedFastqRecord, ReadBatch, ReadEvent, Step, BATCH_SIZE};
use primer_scan::report::format_row;
use primer_scan::stats::{ResultSink, Statistics};

fn pm(pos: Option<usize>, err: Option<usize>) -> PrimerMatch {
    PrimerMatch { found: pos.is_some(), position: pos, errors: err, alignment: b"-".to_vec() }
}

fn verdict(id: &str, strand: Strand, f: &str, r: &str, fp: Option<usize>, rp: Option<usize>, min_dimer: usize) -> Classification {
    let distance = match (fp, rp) {
        (Some(a), Some(b)) => Some(b - a),
        _ => None,
    };
    Classification {
        read_id: id.as_bytes().to_vec(),
        length: 120,
        strand,
        forward_primer: f.as_bytes().to_vec(),
        reverse_primer: r.as_bytes().to_vec(),
        forward_match: pm(fp, fp.map(|_| 0)),
        reverse_match: pm(rp, rp.map(|_| 1)),
        distance,
        is_dimer: distance.map_or(false, |d| d < min_dimer),
    }
}

fn sample() -> Vec<Classification> {
    vec![
        verdict("a", Strand::Plus, "F", "R", Some(0), Some(50), 100),
        verdict("b", Strand::Minus, "R", "F", Some(3), Some(203), 100),
        verdict("c", Strand::Unknown, "-", "-", None, None, 100),
        verdict("d", Strand::Plus, "F", "R", Some(1), Some(150), 100),
    ]
}

#[test]
fn statistics_counts() {
    let mut s = Statistics::new();
    for c in sample() {
        s.process(&c);
    }
    assert_eq!(s.total_reads(), 4);
    assert_eq!(s.both_primers_found(), 3);
    assert_eq!(s.plus_strand(), 2);
    assert_eq!(s.minus_strand(), 1);
    assert_eq!(s.dimer_count(), 1);
    let pairs: Vec<(Vec<u8>, Vec<u8>, usize)> =
        s.primer_pairs().iter().map(|p| (p.forward_primer.clone(), p.reverse_primer.clone(), p.count)).collect();
    assert_eq!(
        pairs,
        vec![(b"F".to_vec(), b"R".to_vec(), 2), (b"R".to_vec(), b"F".to_vec(), 1), (b"-".to_vec(), b"-".to_vec(), 1)]
    );
}

#[test]
fn statistics_totals_hold() {
    let mut s = Statistics::new();
    for c in sample() {
        s.process(&c);
    }
    let unknown = sample().iter().filter(|c| c.strand == Strand::Unknown).count();
    assert_eq!(s.plus_strand() + s.minus_strand() + unknown, s.total_reads());
    let sum: usize = s.primer_pairs().iter().map(|p| p.count).sum();
    assert_eq!(sum, s.total_reads());
}

#[test]
fn statistics_ignore_arrival_order() {
    let mut a = Statistics::new();
    let mut b = Statistics::new();
    for c in sample() {
        a.process(&c);
    }
    for c in sample().iter().rev() {
        b.process(c);
    }
    assert_eq!(a.total_reads(), b.total_reads());
    assert_eq!(a.both_primers_found(), b.both_primers_found());
    assert_eq!(a.plus_strand(), b.plus_strand());
    assert_eq!(a.minus_strand(), b.minus_strand());
    assert_eq!(a.dimer_count(), b.dimer_count());
    let key = |s: &Statistics| {
        let mut v: Vec<(Vec<u8>, Vec<u8>, usize)> =
            s.primer_pairs().iter().map(|p| (p.forward_primer.clone(), p.reverse_primer.clone(), p.count)).collect();
        v.sort();
        v
    };
    assert_eq!(key(&a), key(&b));
}

#[test]
fn empty_statistics() {
    let s = Statistics::new();
    assert_eq!(s.total_reads(), 0);
    assert!(s.primer_pairs().is_empty());
}

#[test]
fn sink_caps_rows_but_counts_all() {
    let mut sink = ResultSink::new(2);
    let rows: Vec<bool> = sample().iter().map(|c| sink.process(c)).collect();
    assert_eq!(rows, vec![true, true, false, false]);
    assert_eq!(sink.rows_written(), 2);
    assert_eq!(sink.statistics().total_reads(), 4);
}

#[test]
fn sink_without_cap_writes_all() {
    let mut sink = ResultSink::new(0);
    let rows: Vec<bool> = sample().iter().map(|c| sink.process(c)).collect();
    assert_eq!(rows, vec![true; 4]);
    assert_eq!(sink.rows_written(), 4);
}

#[test]
fn row_layout() {
    let c = verdict("read1", Strand::Plus, "F", "R", Some(0), Some(50), 100);
    assert_eq!(
        format_row(&c, false),
        b"read1\t120\t+\tF\tR\ttrue\t0\t0\ttrue\t50\t1\t50\ttrue".to_vec()
    );
    let u = verdict("x", Strand::Unknown, "-", "-", None, None, 100);
    assert_eq!(format_row(&u, false), b"x\t120\t?\t-\t-\tfalse\t-\t-\tfalse\t-\t-\t-\tfalse".to_vec());
    assert_eq!(
        format_row(&u, true),
        b"x\t120\t?\t-\t-\tfalse\t-\t-\tfalse\t-\t-\t-\tfalse\t-\t-".to_vec()
    );
}

fn rec(id: &str, seq: &str) -> FastqRecord {
    FastqRecord::new(id.as_bytes().to_vec(), seq.as_bytes().to_vec(), vec![b'I'; seq.len()])
}

#[test]
fn mates_with_other_ids_are_skipped() {
    let rate = MismatchRate { numerator: 1, denominator: 10 };
    assert!(pair_mates(rec("a/1", "ACGT"), &rec("b/2", "ACGT"), 2, rate).is_none());
    let p = pair_mates(rec("a/1", "AAAAAAAA"), &rec("a/2", "TTTTTTTT"), 4, rate).unwrap();
    assert_eq!(p.to_classify().id, b"a_merged_overlap_8".to_vec());
    assert_eq!(p.r1.id, b"a/1".to_vec());
}

#[test]
fn unmerged_pair_classifies_first_mate() {
    let p = PairedFastqRecord::new(rec("solo", "ACGT"));
    assert_eq!(p.to_classify().id, b"solo".to_vec());
}

#[test]
fn batch_fills_up() {
    let mut b = ReadBatch::new();
    for i in 0..BATCH_SIZE {
        assert!(!b.is_full());
        b.push(PairedFastqRecord::new(rec(&format!("r{}", i), "A")));
    }
    assert!(b.is_full());
    assert_eq!(b.records.len(), 1000);
}

#[test]
fn steps_of_the_run() {
    let rate = MismatchRate { numerator: 1, denominator: 10 };
    assert!(matches!(on_first(ReadEvent::End, true), Step::Stop));
    assert!(matches!(on_first(ReadEvent::Malformed(FastqError::EmptySequence), false), Step::Skip));
    match on_first(ReadEvent::Record(rec("s", "ACGT")), false) {
        Step::Queue(p) => assert_eq!(p.to_classify().id, b"s".to_vec()),
        _ => panic!("a single read is queued"),
    }
    let r1 = match on_first(ReadEvent::Record(rec("p/1", "AAAAAAAA")), true) {
        Step::ReadMate(r) => r,
        _ => panic!("a first mate waits for its mate"),
    };
    assert!(matches!(on_mate(r1.clone(), ReadEvent::End, 4, rate), Step::Stop));
    assert!(matches!(on_mate(r1.clone(), ReadEvent::Malformed(FastqError::Truncated), 4, rate), Step::Skip));
    assert!(matches!(on_mate(r1.clone(), ReadEvent::Record(rec("q/2", "TTTTTTTT")), 4, rate), Step::Skip));
    match on_mate(r1, ReadEvent::Record(rec("p/2", "TTTTTTTT")), 4, rate) {
        Step::Queue(p) => assert_eq!(p.to_classify().id, b"p_merged_overlap_8".to_vec()),
        _ => panic!("matching mates are queued"),
    }
}
