//! Classification of sequencing reads against a catalog of PCR primers.
//!
//! The library holds the logic of the pipeline: a line-oriented FASTQ record
//! parser, the merger of paired mate reads, the primer catalog loader, the
//! primer-pair classification engine and the run statistics. Reading files,
//! threads and serialisation live with the caller.
use vstd::prelude::*;

pub mod dna;
pub mod text;
pub mod fastq;
pub mod merge;
pub mod primers;
pub mod align;
pub mod classify;
pub mod stats;
pub mod report;
pub mod pipeline;

verus! {

} // verus!
