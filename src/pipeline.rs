//! The decisions of the batch pipeline: pairing mate records and filling
//! fixed-size batches. Reading the inputs, the worker pool and the result
//! channel belong to the caller.
use vstd::prelude::*;
use crate::fastq::{FastqError, FastqRecord, get_sequence_id, sequence_id_spec};
use crate::merge::{MismatchRate, merge_paired_reads, merge_spec};
use crate::text::bytes_equal;

verus! {

/// The number of records handed to the workers at once.
pub const BATCH_SIZE: usize = 1000;

/// A first-mate record, with the merged read of its pair when there is one.
pub struct PairedFastqRecord {
    pub r1: FastqRecord,
    pub merged: Option<FastqRecord>,
}

impl PairedFastqRecord {
    pub fn new(r1: FastqRecord) -> (r: PairedFastqRecord)
        ensures
            r.r1 == r1,
            r.merged is None,
    {
        PairedFastqRecord { r1, merged: None }
    }

    /// The record to classify: the merged read if there is one, else the
    /// first mate.
    pub fn to_classify(&self) -> (r: &FastqRecord)
        ensures
            r == match self.merged {
                Some(m) => m,
                None => self.r1,
            },
    {
        match &self.merged {
            Some(m) => m,
            None => &self.r1,
        }
    }
}

/// Pairs a first mate with the next second mate. When their mate-pair ids
/// differ the pair is skipped (nothing is returned); otherwise the record
/// carries the merge of the two, if the merge gives one.
pub fn pair_mates(r1: FastqRecord, r2: &FastqRecord, min_overlap: usize, rate: MismatchRate) -> (r: Option<PairedFastqRecord>)
    requires
        r1.wf(),
        r2.wf(),
        rate.wf(),
    ensures
        r is Some <==> sequence_id_spec(r1.id@) == sequence_id_spec(r2.id@),
        r matches Some(p) ==> {
            &&& p.r1 == r1
            &&& match merge_spec(r1, *r2, min_overlap as int, rate) {
                None => p.merged is None,
                Some(m) => p.merged matches Some(x) && x.id@ == m.0 && x.seq@ == m.1 && x.qual@ == m.2,
            }
        },
{
    let id1 = get_sequence_id(r1.id.as_slice());
    let id2 = get_sequence_id(r2.id.as_slice());
    if !bytes_equal(id1.as_slice(), id2.as_slice()) {
        return None;
    }
    let merged = merge_paired_reads(&r1, r2, min_overlap, rate);
    Some(PairedFastqRecord { r1, merged })
}

/// Records waiting to be classified.
pub struct ReadBatch {
    pub records: Vec<PairedFastqRecord>,
}

impl ReadBatch {
    pub fn new() -> (r: ReadBatch)
        ensures
            r.records@.len() == 0,
    {
        ReadBatch { records: Vec::new() }
    }

    /// A batch is full once it holds `BATCH_SIZE` records.
    pub fn is_full(&self) -> (r: bool)
        ensures
            r == (self.records@.len() >= BATCH_SIZE),
    {
        self.records.len() >= BATCH_SIZE
    }

    pub fn push(&mut self, p: PairedFastqRecord)
        ensures
            final(self).records@ == old(self).records@.push(p),
    {
        self.records.push(p);
    }
}

/// What reading one record from an input gave.
pub enum ReadEvent {
    Record(FastqRecord),
    /// The input has ended (cleanly, or inside a truncated record).
    End,
    /// A record broke the format and was dropped.
    Malformed(FastqError),
}

/// What the run does next.
pub enum Step {
    /// Stop reading: an input has ended.
    Stop,
    /// Drop this record (or pair) and read on.
    Skip,
    /// Read the next second mate and pair it with this first mate.
    ReadMate(FastqRecord),
    /// Queue this record for classification.
    Queue(PairedFastqRecord),
}

/// The step after reading a first mate (or the only read, without second
/// mates): stop at the end of the input, skip a malformed record, queue a
/// single read, or go on to its mate.
pub fn on_first(ev: ReadEvent, paired: bool) -> (r: Step)
    ensures
        ev is End ==> r is Stop,
        ev is Malformed ==> r is Skip,
        ev matches ReadEvent::Record(rec) ==> if paired {
            r matches Step::ReadMate(x) && x == rec
        } else {
            r matches Step::Queue(p) && p.r1 == rec && p.merged is None
        },
{
    match ev {
        ReadEvent::End => Step::Stop,
        ReadEvent::Malformed(_) => Step::Skip,
        ReadEvent::Record(rec) => if paired {
            Step::ReadMate(rec)
        } else {
            Step::Queue(PairedFastqRecord::new(rec))
        },
    }
}

/// The step after reading the second mate of `r1`: stop at the end of the
/// second input, skip the pair on a malformed record or when the mate-pair
/// ids differ, otherwise queue the pair with its merge.
pub fn on_mate(r1: FastqRecord, ev: ReadEvent, min_overlap: usize, rate: MismatchRate) -> (r: Step)
    requires
        r1.wf(),
        rate.wf(),
        ev matches ReadEvent::Record(r2) ==> r2.wf(),
    ensures
        ev is End ==> r is Stop,
        ev is Malformed ==> r is Skip,
        ev matches ReadEvent::Record(r2) ==> if sequence_id_spec(r1.id@) == sequence_id_spec(r2.id@) {
            &&& r matches Step::Queue(p)
            &&& p.r1 == r1
            &&& match merge_spec(r1, r2, min_overlap as int, rate) {
                None => p.merged is None,
                Some(m) => p.merged matches Some(x) && x.id@ == m.0 && x.seq@ == m.1 && x.qual@ == m.2,
            }
        } else {
            r is Skip
        },
{
    match ev {
        ReadEvent::End => Step::Stop,
        ReadEvent::Malformed(_) => Step::Skip,
        ReadEvent::Record(r2) => match pair_mates(r1, &r2, min_overlap, rate) {
            Some(p) => Step::Queue(p),
            None => Step::Skip,
        },
    }
}

} // verus!
