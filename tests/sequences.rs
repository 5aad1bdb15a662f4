use primer_scan::dna::revcomp;
use primer_scan::fastq::{get_sequence_id, FastqError, FastqParser, FastqRecord, Stage};
use primer_scan::merge::{find_overlap, merge_paired_reads, MismatchRate};

fn feed_all(lines: &[&str]) -> (Vec<FastqRecord>, Vec<FastqError>, Result<(), FastqError>) {
    let mut p = FastqParser::new();
    let mut recs = Vec::new();
    let mut errs = Vec::new();
    for l in lines {
        match p.feed_line(l.as_bytes()) {
            Ok(Some(r)) => recs.push(r),
            Ok(None) => {}
            Err(e) => errs.push(e),
        }
    }
    let end = p.finish();
    (recs, errs, end)
}

fn rec(id: &str, seq: &str, qual: &str) -> FastqRecord {
    FastqRecord::new(id.as_bytes().to_vec(), seq.as_bytes().to_vec(), qual.as_bytes().to_vec())
}

#[test]
fn revcomp_of_bases() {
    assert_eq!(revcomp(b"ACGTN"), b"NACGT".to_vec());
    assert_eq!(revcomp(b"GaTtaCA"), b"TGtaAtC".to_vec());
    assert_eq!(revcomp(b""), Vec::<u8>::new());
}

#[test]
fn revcomp_twice_is_identity() {
    for s in ["ACGTNNACGT", "A", "TTTTCCCC", "GATTACA", "NNNN"] {
        let once = revcomp(s.as_bytes());
        assert_eq!(once.len(), s.len());
        assert_eq!(revcomp(&once), s.as_bytes().to_vec());
    }
}

#[test]
fn parses_records() {
    let (recs, errs, end) = feed_all(&["@r1 extra\n", "ACGT\n", "+\n", "IIII\n", "@r2\n", " GG \n", "+r2\n", "!!\n"]);
    assert!(errs.is_empty());
    assert!(end.is_ok());
    assert_eq!(recs.len(), 2);
    assert_eq!(recs[0].id, b"r1".to_vec());
    assert_eq!(recs[0].seq, b"ACGT".to_vec());
    assert_eq!(recs[0].qual, b"IIII".to_vec());
    assert_eq!(recs[1].id, b"r2".to_vec());
    assert_eq!(recs[1].seq, b"GG".to_vec());
}

#[test]
fn missing_quality_line_is_truncation() {
    let (recs, errs, end) = feed_all(&["@r1\n", "ACGT\n", "+\n"]);
    assert!(recs.is_empty());
    assert!(errs.is_empty());
    assert_eq!(end, Err(FastqError::Truncated));
}

#[test]
fn empty_input_ends_cleanly() {
    let (recs, errs, end) = feed_all(&[]);
    assert!(recs.is_empty() && errs.is_empty());
    assert_eq!(end, Ok(()));
}

#[test]
fn format_errors_skip_the_record() {
    let (recs, errs, end) = feed_all(&[
        "r0\n", "@r1\n", "\n", "@r2\n", "AC\n", "-\n", "@r3\n", "AC\n", "+\n", "I\n", "@r4\n", "AC\n", "+\n",
        "  \n", "@r5\n", "AC\n", "+\n", "II\n",
    ]);
    assert_eq!(
        errs,
        vec![
            FastqError::BadHeader(b"r0\n".to_vec()),
            FastqError::EmptySequence,
            FastqError::BadSeparator(b"-\n".to_vec()),
            FastqError::LengthMismatch { seq_len: 2, qual_len: 1 },
            FastqError::EmptyQuality,
        ]
    );
    assert_eq!(recs.len(), 1);
    assert_eq!(recs[0].id, b"r5".to_vec());
    assert!(end.is_ok());
}

#[test]
fn parser_stage_follows_lines() {
    let mut p = FastqParser::new();
    assert_eq!(p.current_stage(), Stage::Header);
    p.feed_line(b"@x").unwrap();
    assert_eq!(p.current_stage(), Stage::Sequence);
    p.feed_line(b"A").unwrap();
    assert_eq!(p.current_stage(), Stage::Separator);
    p.feed_line(b"+").unwrap();
    assert_eq!(p.current_stage(), Stage::Quality);
}

#[test]
fn mate_ids() {
    assert_eq!(get_sequence_id(b"read7/1"), b"read7".to_vec());
    assert_eq!(get_sequence_id(b"read7/2 1:N:0"), b"read7".to_vec());
    assert_eq!(get_sequence_id(b"read7/2/1"), b"read7".to_vec());
    assert_eq!(get_sequence_id(b"read7/1/2"), b"read7/1".to_vec());
    assert_eq!(get_sequence_id(b"  "), b"  ".to_vec());
    assert_eq!(get_sequence_id(b"plain"), b"plain".to_vec());
}

fn rate(n: i64, d: u64) -> MismatchRate {
    MismatchRate { numerator: n, denominator: d }
}

#[test]
fn merges_exact_overlap() {
    // r2 is the reverse complement of "GGTTCCAA", which overlaps r1's end by 4.
    let r1 = rec("p/1", "AAAAGGTT", "IIIIIIII");
    let r2 = rec("p/2", &String::from_utf8(revcomp(b"GGTTCCAA")).unwrap(), "ABCDEFGH");
    let m = merge_paired_reads(&r1, &r2, 3, rate(1, 10)).unwrap();
    assert_eq!(m.seq, b"AAAAGGTTCCAA".to_vec());
    assert_eq!(m.seq.len(), 8 + 8 - 4);
    assert_eq!(m.qual.len(), m.seq.len());
    assert_eq!(m.id, b"p_merged_overlap_4".to_vec());
    // r1 quality 'I' beats r2's reversed qualities "HGFE" over the overlap.
    assert_eq!(m.qual, b"IIIIIIIIDCBA".to_vec());
}

#[test]
fn overlap_consensus_takes_higher_quality() {
    let r1 = rec("q", "ACGTAC", "######");
    let r2 = rec("q", &String::from_utf8(revcomp(b"TACGGA")).unwrap(), "IIIIII");
    // the overlap "TAC" agrees; r2's qualities win there.
    let m = merge_paired_reads(&r1, &r2, 3, rate(0, 1)).unwrap();
    assert_eq!(m.seq, b"ACGTACGGA".to_vec());
    assert_eq!(m.qual, b"###IIIIII".to_vec());
    assert_eq!(m.id, b"q_merged_overlap_3".to_vec());
}

#[test]
fn concatenates_without_overlap() {
    let r1 = rec("c/1", "AAAA", "IIII");
    let r2 = rec("c/2", "AAAA", "ABCD");
    let m = merge_paired_reads(&r1, &r2, 2, rate(0, 1)).unwrap();
    assert_eq!(m.seq, b"AAAATTTT".to_vec());
    assert_eq!(m.qual, b"IIIIDCBA".to_vec());
    assert_eq!(m.seq.len(), 4 + 4);
    assert_eq!(m.id, b"c_merged_concat".to_vec());
}

#[test]
fn short_reads_are_concatenated() {
    let r1 = rec("s", "AC", "II");
    let r2 = rec("s", "GT", "II");
    let m = merge_paired_reads(&r1, &r2, 10, rate(1, 10)).unwrap();
    assert_eq!(m.id, b"s_merged_concat".to_vec());
    assert_eq!(m.seq.len(), 4);
}

#[test]
fn empty_mate_gives_nothing() {
    let r1 = rec("e", "", "");
    let r2 = rec("e", "ACGT", "IIII");
    assert!(merge_paired_reads(&r1, &r2, 1, rate(1, 10)).is_none());
    assert!(merge_paired_reads(&r2, &r1, 1, rate(1, 10)).is_none());
}

fn mism(a: &[u8], b: &[u8], l: usize) -> usize {
    a[a.len() - l..].iter().zip(b[..l].iter()).filter(|(x, y)| x != y).count()
}

#[test]
fn overlap_is_longest_within_rate() {
    let a = b"ACGTTGCAACGTAGGCTA";
    let b = b"GGCTAACGTTTGCA";
    for min in 0..6usize {
        for (n, d) in [(0i64, 1u64), (1, 10), (1, 5), (1, 2), (-1, 1)] {
            let got = find_overlap(a, b, min, rate(n, d));
            let maxl = a.len().min(b.len());
            let ok = |l: usize| l > 0 && (mism(a, b, l) as i128) * (d as i128) <= (n as i128) * (l as i128);
            let expected = (min..=maxl).rev().find(|&l| ok(l));
            assert_eq!(got, expected);
            if let Some(l) = got {
                assert!(ok(l));
                assert!(((l + 1)..=maxl).all(|m| !ok(m)));
            }
        }
    }
}

#[test]
fn negative_rate_never_overlaps() {
    let r1 = rec("n", "ACGTACGT", "IIIIIIII");
    let r2 = rec("n", &String::from_utf8(revcomp(b"ACGTACGT")).unwrap(), "IIIIIIII");
    let m = merge_paired_reads(&r1, &r2, 1, rate(-1, 1)).unwrap();
    assert_eq!(m.id, b"n_merged_concat".to_vec());
}
