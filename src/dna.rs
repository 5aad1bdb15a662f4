//! Nucleotide alphabet and the reverse complement.
use vstd::prelude::*;

verus! {

/// A byte that is one of the bases `A`, `C`, `G`, `T`, `N`, in either case.
pub open spec fn is_base(b: u8) -> bool {
    b == 65u8 || b == 67u8 || b == 71u8 || b == 84u8 || b == 78u8 || b == 97u8 || b == 99u8
        || b == 103u8 || b == 116u8 || b == 110u8
}

/// A byte that is one of the upper-case bases `A`, `C`, `G`, `T`, `N`.
pub open spec fn is_upper_base(b: u8) -> bool {
    b == 65u8 || b == 67u8 || b == 71u8 || b == 84u8 || b == 78u8
}

/// The complement of an upper-case IUPAC code: `A`<->`T`, `C`<->`G`,
/// `R`<->`Y`, `K`<->`M`, `B`<->`V`, `D`<->`H`; `W`, `S` and `N` are their own
/// complements.
pub open spec fn upper_complement(b: u8) -> Option<u8> {
    if b == 65u8 { Some(84u8) }
    else if b == 84u8 { Some(65u8) }
    else if b == 67u8 { Some(71u8) }
    else if b == 71u8 { Some(67u8) }
    else if b == 82u8 { Some(89u8) }
    else if b == 89u8 { Some(82u8) }
    else if b == 75u8 { Some(77u8) }
    else if b == 77u8 { Some(75u8) }
    else if b == 66u8 { Some(86u8) }
    else if b == 86u8 { Some(66u8) }
    else if b == 68u8 { Some(72u8) }
    else if b == 72u8 { Some(68u8) }
    else if b == 87u8 || b == 83u8 || b == 78u8 { Some(b) }
    else { None }
}

/// The complement of a byte: an IUPAC code in either case maps to its
/// complement in the same case; every other byte is kept.
pub open spec fn complement(b: u8) -> u8 {
    match upper_complement(b) {
        Some(c) => c,
        None => if 97u8 <= b && b <= 122u8 {
            match upper_complement((b - 32) as u8) {
                Some(c) => (c + 32) as u8,
                None => b,
            }
        } else {
            b
        },
    }
}

/// The reverse complement of a sequence of bases.
pub open spec fn revcomp_spec(s: Seq<u8>) -> Seq<u8> {
    Seq::new(s.len(), |i: int| complement(s[s.len() - 1 - i]))
}

/// Relies on `bio::alphabets::dna::revcomp`: the bytes in reverse order,
/// each replaced through bio's complement table.
#[verifier::external_body]
fn bio_revcomp(s: &[u8]) -> (r: Vec<u8>)
    ensures
        r@ == revcomp_spec(s@),
{
    bio::alphabets::dna::revcomp(s)
}

/// The reverse complement of `s`: reversed, with `A`<->`T`, `C`<->`G`, `N`
/// kept, and the other IUPAC codes complemented in the same case.
pub fn revcomp(s: &[u8]) -> (r: Vec<u8>)
    ensures
        r@ == revcomp_spec(s@),
        r@.len() == s@.len(),
{
    bio_revcomp(s)
}

/// Complementing a byte twice gives the byte back.
pub proof fn lemma_complement_involutive(b: u8)
    ensures
        complement(complement(b)) == b,
        is_base(b) ==> is_base(complement(b)),
        is_upper_base(b) ==> is_upper_base(complement(b)),
{
}

/// Taking the reverse complement twice gives back the same sequence;
/// this holds of every byte sequence, so in particular of every sequence
/// over `A`, `T`, `G`, `C`, `N`.
pub proof fn lemma_revcomp_involutive(s: Seq<u8>)
    ensures
        revcomp_spec(revcomp_spec(s)) == s,
{
    let t = revcomp_spec(s);
    assert forall|i: int| 0 <= i < s.len() implies revcomp_spec(t)[i] == s[i] by {
        lemma_complement_involutive(s[i]);
    }
    assert(revcomp_spec(t) =~= s);
}

} // verus!
