//! The sequence record source: a FASTQ parser fed one line at a time.
//!
//! A record is four lines: a header starting with `@` (the id is its first
//! whitespace-delimited token), a non-empty sequence, a separator starting
//! with `+`, and a non-empty quality line as long as the sequence. A broken
//! record is reported and dropped; the next line is read as a new header.
//! End of input inside a record is a truncation, which ends the stream.
use vstd::prelude::*;
use crate::text::{token_from, trim_spec, token_at, trim, skip_space_from, token_end_from, copy_range, skip_space, token_end};

verus! {

/// One read: identifier, bases and per-base quality.
#[derive(Clone, Debug)]
pub struct FastqRecord {
    pub id: Vec<u8>,
    pub seq: Vec<u8>,
    pub qual: Vec<u8>,
}

impl FastqRecord {
    /// A read has as many quality values as bases.
    pub open spec fn wf(&self) -> bool {
        self.seq@.len() == self.qual@.len()
    }

    pub fn new(id: Vec<u8>, seq: Vec<u8>, qual: Vec<u8>) -> (r: FastqRecord)
        ensures
            r.id@ == id@,
            r.seq@ == seq@,
            r.qual@ == qual@,
    {
        FastqRecord { id, seq, qual }
    }
}

/// Why a record could not be read.
#[derive(Clone, Debug, PartialEq, Eq)]
pub enum FastqError {
    /// The header line does not start with `@`; holds the line.
    BadHeader(Vec<u8>),
    /// The sequence line is blank.
    EmptySequence,
    /// The separator line does not start with `+`; holds the line.
    BadSeparator(Vec<u8>),
    /// The quality line is blank.
    EmptyQuality,
    /// The quality line is not as long as the sequence.
    LengthMismatch { seq_len: usize, qual_len: usize },
    /// The input ended inside a record.
    Truncated,
}

/// Which line of a record the parser expects next.
#[derive(Clone, Copy, Debug, PartialEq, Eq, Structural)]
pub enum Stage {
    Header,
    Sequence,
    Separator,
    Quality,
}

pub struct FastqParser {
    stage: Stage,
    id: Vec<u8>,
    seq: Vec<u8>,
}

/// The header's id: the first token after the leading `@`.
pub open spec fn header_id(line: Seq<u8>) -> Seq<u8> {
    token_from(line, 1)
}

pub open spec fn starts_with(line: Seq<u8>, c: u8) -> bool {
    line.len() > 0 && line[0] == c
}

impl FastqParser {
    /// The line the parser expects next.
    pub closed spec fn stage(&self) -> Stage {
        self.stage
    }

    /// The id of the record being read (meaningful after its header).
    pub closed spec fn pending_id(&self) -> Seq<u8> {
        self.id@
    }

    /// The bases of the record being read (meaningful after its sequence).
    pub closed spec fn pending_seq(&self) -> Seq<u8> {
        self.seq@
    }

    pub fn new() -> (r: FastqParser)
        ensures
            r.stage() == Stage::Header,
    {
        FastqParser { stage: Stage::Header, id: Vec::new(), seq: Vec::new() }
    }

    /// Where the parser stands in the current record.
    pub fn current_stage(&self) -> (r: Stage)
        ensures
            r == self.stage(),
    {
        self.stage
    }

    /// Takes the next line of input (with or without its line ending).
    /// Returns the record that the line completes, if any. On an error the
    /// partial record is dropped and the parser expects a header again.
    pub fn feed_line(&mut self, line: &[u8]) -> (r: Result<Option<FastqRecord>, FastqError>)
        ensures
            match old(self).stage() {
                Stage::Header => if starts_with(line@, 64u8) {
                    &&& r == Ok::<Option<FastqRecord>, FastqError>(None)
                    &&& final(self).stage() == Stage::Sequence
                    &&& final(self).pending_id() == header_id(line@)
                } else {
                    &&& r is Err && r->Err_0 is BadHeader && r->Err_0->BadHeader_0@ == line@
                    &&& final(self).stage() == Stage::Header
                },
                Stage::Sequence => if trim_spec(line@).len() == 0 {
                    &&& r == Err::<Option<FastqRecord>, FastqError>(FastqError::EmptySequence)
                    &&& final(self).stage() == Stage::Header
                } else {
                    &&& r == Ok::<Option<FastqRecord>, FastqError>(None)
                    &&& final(self).stage() == Stage::Separator
                    &&& final(self).pending_id() == old(self).pending_id()
                    &&& final(self).pending_seq() == trim_spec(line@)
                },
                Stage::Separator => if starts_with(line@, 43u8) {
                    &&& r == Ok::<Option<FastqRecord>, FastqError>(None)
                    &&& final(self).stage() == Stage::Quality
                    &&& final(self).pending_id() == old(self).pending_id()
                    &&& final(self).pending_seq() == old(self).pending_seq()
                } else {
                    &&& r is Err && r->Err_0 is BadSeparator && r->Err_0->BadSeparator_0@ == line@
                    &&& final(self).stage() == Stage::Header
                },
                Stage::Quality => {
                    &&& final(self).stage() == Stage::Header
                    &&& if trim_spec(line@).len() == 0 {
                        r == Err::<Option<FastqRecord>, FastqError>(FastqError::EmptyQuality)
                    } else if trim_spec(line@).len() != old(self).pending_seq().len() {
                        r == Err::<Option<FastqRecord>, FastqError>(
                            FastqError::LengthMismatch {
                                seq_len: old(self).pending_seq().len() as usize,
                                qual_len: trim_spec(line@).len() as usize,
                            },
                        )
                    } else {
                        &&& r is Ok && r->Ok_0 is Some
                        &&& r->Ok_0->Some_0.id@ == old(self).pending_id()
                        &&& r->Ok_0->Some_0.seq@ == old(self).pending_seq()
                        &&& r->Ok_0->Some_0.qual@ == trim_spec(line@)
                        &&& r->Ok_0->Some_0.wf()
                    }
                },
            },
    {
        match self.stage {
            Stage::Header => {
                if line.len() > 0 && line[0] == 64u8 {
                    self.id = token_at(line, 1);
                    self.seq = Vec::new();
                    self.stage = Stage::Sequence;
                    Ok(None)
                } else {
                    Err(FastqError::BadHeader(copy_range(line, 0, line.len())))
                }
            },
            Stage::Sequence => {
                let t = trim(line);
                if t.len() == 0 {
                    self.stage = Stage::Header;
                    Err(FastqError::EmptySequence)
                } else {
                    self.seq = t;
                    self.stage = Stage::Separator;
                    Ok(None)
                }
            },
            Stage::Separator => {
                if line.len() > 0 && line[0] == 43u8 {
                    self.stage = Stage::Quality;
                    Ok(None)
                } else {
                    self.stage = Stage::Header;
                    Err(FastqError::BadSeparator(copy_range(line, 0, line.len())))
                }
            },
            Stage::Quality => {
                self.stage = Stage::Header;
                let t = trim(line);
                if t.len() == 0 {
                    Err(FastqError::EmptyQuality)
                } else if t.len() != self.seq.len() {
                    Err(FastqError::LengthMismatch { seq_len: self.seq.len(), qual_len: t.len() })
                } else {
                    let id = copy_range(self.id.as_slice(), 0, self.id.len());
                    let seq = copy_range(self.seq.as_slice(), 0, self.seq.len());
                    assert(id@ =~= self.id@);
                    assert(seq@ =~= self.seq@);
                    Ok(Some(FastqRecord { id, seq, qual: t }))
                }
            },
        }
    }

    /// Called at the end of the input: a clean end between records, or a
    /// truncation inside one.
    pub fn finish(&self) -> (r: Result<(), FastqError>)
        ensures
            self.stage() == Stage::Header <==> r is Ok,
            r is Err ==> r->Err_0 == FastqError::Truncated,
    {
        match self.stage {
            Stage::Header => Ok(()),
            _ => Err(FastqError::Truncated),
        }
    }
}

/// `s` with every trailing `/d` removed.
pub open spec fn strip_mate_suffix(s: Seq<u8>, d: u8) -> Seq<u8>
    decreases s.len(),
{
    if s.len() >= 2 && s[s.len() - 2] == 47u8 && s[s.len() - 1] == d {
        strip_mate_suffix(s.subrange(0, s.len() - 2), d)
    } else {
        s
    }
}

/// The mate-pair identifier of a read id: its first whitespace-delimited
/// token (the whole id when it has none), without trailing `/1` and then
/// without trailing `/2`.
pub open spec fn sequence_id_spec(full: Seq<u8>) -> Seq<u8> {
    let a = skip_space(full, 0);
    let tok = if a >= full.len() {
        full
    } else {
        full.subrange(a, token_end(full, a))
    };
    strip_mate_suffix(strip_mate_suffix(tok, 49u8), 50u8)
}

fn strip_suffix_len(s: &[u8], hi: usize, d: u8) -> (r: usize)
    requires
        hi <= s@.len(),
    ensures
        r <= hi,
        s@.subrange(0, r as int) == strip_mate_suffix(s@.subrange(0, hi as int), d),
{
    let mut j = hi;
    while j >= 2 && s[j - 2] == 47u8 && s[j - 1] == d
        invariant
            j <= hi <= s@.len(),
            strip_mate_suffix(s@.subrange(0, j as int), d) == strip_mate_suffix(
                s@.subrange(0, hi as int),
                d,
            ),
        decreases j,
    {
        assert(s@.subrange(0, j as int).subrange(0, j - 2) =~= s@.subrange(0, j - 2));
        j = j - 2;
    }
    j
}

/// The mate-pair identifier shared by the two reads of a pair.
pub fn get_sequence_id(full_id: &[u8]) -> (r: Vec<u8>)
    ensures
        r@ == sequence_id_spec(full_id@),
{
    let a = skip_space_from(full_id, 0);
    let tok = if a >= full_id.len() {
        let t = copy_range(full_id, 0, full_id.len());
        assert(t@ =~= full_id@);
        t
    } else {
        let b = token_end_from(full_id, a);
        copy_range(full_id, a, b)
    };
    let t1 = strip_suffix_len(tok.as_slice(), tok.len(), 49u8);
    assert(tok@.subrange(0, tok@.len() as int) =~= tok@);
    let t2 = strip_suffix_len(tok.as_slice(), t1, 50u8);
    assert(tok@.subrange(0, t1 as int).subrange(0, t2 as int) =~= tok@.subrange(0, t2 as int));
    copy_range(tok.as_slice(), 0, t2)
}

} // verus!
