//! The result file's rows: tab-separated, one per verdict.
use vstd::prelude::*;
use crate::classify::{Classification, ClassView, Strand};
use crate::text::{decimal, decimal_bytes, append_bytes};

verus! {

pub open spec fn tab() -> Seq<u8> {
    seq![9u8]
}

/// `true` or `false`.
pub open spec fn bool_text(b: bool) -> Seq<u8> {
    if b {
        seq![116u8, 114, 117, 101]
    } else {
        seq![102u8, 97, 108, 115, 101]
    }
}

/// A number in decimal, or `-` when absent.
pub open spec fn opt_text(n: Option<usize>) -> Seq<u8> {
    match n {
        Some(v) => decimal(v as nat),
        None => seq![45u8],
    }
}

pub open spec fn strand_symbol(s: Strand) -> u8 {
    match s {
        Strand::Plus => 43u8,
        Strand::Minus => 45u8,
        Strand::Unknown => 63u8,
    }
}

/// The result row of a verdict (without line ending): read id, length,
/// strand, forward and reverse primer, then found / position / errors for
/// each primer, distance and dimer flag; with `with_alignment`, the two
/// rendered alignments follow.
pub open spec fn row_spec(c: ClassView, with_alignment: bool) -> Seq<u8> {
    let base = c.0 + tab() + decimal(c.1 as nat) + tab() + seq![strand_symbol(c.2)] + tab() + c.3 + tab() + c.4
        + tab() + bool_text(c.5.0) + tab() + opt_text(c.5.1) + tab() + opt_text(c.5.2) + tab() + bool_text(c.6.0)
        + tab() + opt_text(c.6.1) + tab() + opt_text(c.6.2) + tab() + opt_text(c.7) + tab() + bool_text(c.8);
    if with_alignment {
        base + tab() + c.5.3 + tab() + c.6.3
    } else {
        base
    }
}


fn push_bool(v: &mut Vec<u8>, b: bool)
    ensures
        final(v)@ == old(v)@ + bool_text(b),
{
    if b {
        let t: [u8; 4] = [116u8, 114, 117, 101];
        append_bytes(v, t.as_slice());
        assert(t@ == bool_text(b));
    } else {
        let t: [u8; 5] = [102u8, 97, 108, 115, 101];
        append_bytes(v, t.as_slice());
        assert(t@ == bool_text(b));
    }
}

fn push_opt(v: &mut Vec<u8>, n: Option<usize>)
    ensures
        final(v)@ == old(v)@ + opt_text(n),
{
    match n {
        Some(x) => {
            let d = decimal_bytes(x);
            append_bytes(v, d.as_slice());
        },
        None => {
            let ghost v0 = v@;
            v.push(45u8);
            assert(v@ =~= v0 + seq![45u8]);
        },
    }
}

fn push_tab(v: &mut Vec<u8>)
    ensures
        final(v)@ == old(v)@ + tab(),
{
    let ghost v0 = v@;
    v.push(9u8);
    assert(v@ =~= v0 + tab());
}

/// Formats the result row of a verdict.
pub fn format_row(c: &Classification, with_alignment: bool) -> (r: Vec<u8>)
    ensures
        r@ == row_spec(c.view(), with_alignment),
{
    let mut v: Vec<u8> = Vec::new();
    append_bytes(&mut v, c.read_id.as_slice());
    push_tab(&mut v);
    let len = decimal_bytes(c.length);
    append_bytes(&mut v, len.as_slice());
    push_tab(&mut v);
    let ghost v0 = v@;
    v.push(c.strand.symbol());
    assert(v@ =~= v0 + seq![strand_symbol(c.strand)]);
    push_tab(&mut v);
    append_bytes(&mut v, c.forward_primer.as_slice());
    push_tab(&mut v);
    append_bytes(&mut v, c.reverse_primer.as_slice());
    push_tab(&mut v);
    push_bool(&mut v, c.forward_match.found);
    push_tab(&mut v);
    push_opt(&mut v, c.forward_match.position);
    push_tab(&mut v);
    push_opt(&mut v, c.forward_match.errors);
    push_tab(&mut v);
    push_bool(&mut v, c.reverse_match.found);
    push_tab(&mut v);
    push_opt(&mut v, c.reverse_match.position);
    push_tab(&mut v);
    push_opt(&mut v, c.reverse_match.errors);
    push_tab(&mut v);
    push_opt(&mut v, c.distance);
    push_tab(&mut v);
    push_bool(&mut v, c.is_dimer);
    if with_alignment {
        push_tab(&mut v);
        append_bytes(&mut v, c.forward_match.alignment.as_slice());
        push_tab(&mut v);
        append_bytes(&mut v, c.reverse_match.alignment.as_slice());
    }
    v
}

} // verus!
