use vstd::prelude::*;
use crate::types::Gender;

verus! {

/// One byte of a child: the bits of `a` where `r` has a one, the bits of `b` elsewhere.
pub open spec fn crossover_byte(r: u8, a: u8, b: u8) -> u8 {
    (r & a) | (!r & b)
}

/// A child's dna from a random mask and two parents' dna, byte by byte.
pub open spec fn crossover(r: Seq<u8>, a: Seq<u8>, b: Seq<u8>) -> Seq<u8> {
    Seq::new(16, |i: int| crossover_byte(r[i], a[i], b[i]))
}

/// Bit `j` of a byte.
pub open spec fn bit(x: u8, j: u8) -> u8 {
    (x >> j) & 1
}

/// The gender that a random draw gives: its first byte modulo two.
pub open spec fn gender_of(first: u8) -> Gender {
    if first % 2 == 0 {
        Gender::Male
    } else {
        Gender::Female
    }
}

/// Every bit of a crossed-over byte is the same bit of one of the two parents.
pub proof fn lemma_crossover_byte_bits(r: u8, a: u8, b: u8, j: u8)
    requires
        j < 8,
    ensures
        bit(crossover_byte(r, a, b), j) == bit(a, j) || bit(crossover_byte(r, a, b), j) == bit(
            b,
            j,
        ),
        bit(r, j) == 1 ==> bit(crossover_byte(r, a, b), j) == bit(a, j),
        bit(r, j) == 0 ==> bit(crossover_byte(r, a, b), j) == bit(b, j),
{
    assert(((((r & a) | (!r & b)) >> j) & 1) == (((a >> j) & 1)) || ((((r & a) | (!r & b)) >> j)
        & 1) == ((b >> j) & 1)) by (bit_vector)
        requires
            j < 8,
    ;
    assert(((r >> j) & 1) == 1 ==> ((((r & a) | (!r & b)) >> j) & 1) == ((a >> j) & 1))
        by (bit_vector)
        requires
            j < 8,
    ;
    assert(((r >> j) & 1) == 0 ==> ((((r & a) | (!r & b)) >> j) & 1) == ((b >> j) & 1))
        by (bit_vector)
        requires
            j < 8,
    ;
}

/// Crossover inherits each bit from one parent: from the first where the mask bit
/// is set, from the second where it is clear.
pub proof fn lemma_crossover_inherits(r: Seq<u8>, a: Seq<u8>, b: Seq<u8>)
    requires
        r.len() == 16,
        a.len() == 16,
        b.len() == 16,
    ensures
        forall|i: int, j: u8|
            0 <= i < 16 && j < 8 ==> {
                let c = #[trigger] bit(crossover(r, a, b)[i], j);
                &&& (c == bit(a[i], j) || c == bit(b[i], j))
                &&& (bit(r[i], j) == 1 ==> c == bit(a[i], j))
                &&& (bit(r[i], j) == 0 ==> c == bit(b[i], j))
            },
{
    assert forall|i: int, j: u8| 0 <= i < 16 && j < 8 implies {
        let c = #[trigger] bit(crossover(r, a, b)[i], j);
        &&& (c == bit(a[i], j) || c == bit(b[i], j))
        &&& (bit(r[i], j) == 1 ==> c == bit(a[i], j))
        &&& (bit(r[i], j) == 0 ==> c == bit(b[i], j))
    } by {
        lemma_crossover_byte_bits(r[i], a[i], b[i], j);
    }
}

/// Crosses two parents' dna under a random mask.
pub fn cross_dna(r: &[u8; 16], a: &[u8; 16], b: &[u8; 16]) -> (c: [u8; 16])
    ensures
        c@ == crossover(r@, a@, b@),
{
    let mut c: [u8; 16] = [0u8; 16];
    let mut i: usize = 0;
    while i < 16
        invariant
            i <= 16,
            c@.len() == 16,
            forall|k: int| 0 <= k < i ==> c@[k] == crossover_byte(r@[k], a@[k], b@[k]),
        decreases 16 - i,
    {
        c[i] = (r[i] & a[i]) | (!r[i] & b[i]);
        i = i + 1;
    }
    assert(c@ =~= crossover(r@, a@, b@));
    c
}

/// The gender that a random draw gives.
pub fn gender_from(random: &[u8; 32]) -> (g: Gender)
    ensures
        g == gender_of(random@[0]),
{
    if random[0] % 2 == 0 {
        Gender::Male
    } else {
        Gender::Female
    }
}

} // verus!
