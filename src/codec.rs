use vstd::prelude::*;
use crate::types::{Gender, Kitty, KittyView};

verus! {

/// The 128-bit Blake2b digest of a byte string.
pub uninterp spec fn blake2_128_of(data: Seq<u8>) -> Seq<u8>;

/// The 256-bit Blake2b digest of a byte string.
pub uninterp spec fn blake2_256_of(data: Seq<u8>) -> Seq<u8>;

/// Relies on sp_io::hashing::blake2_128: a 16-byte digest that depends on the input alone.
#[verifier::external_body]
pub(crate) fn blake2_128(data: &[u8]) -> (r: [u8; 16])
    ensures
        r@ == blake2_128_of(data@),
{
    sp_io::hashing::blake2_128(data)
}

/// Relies on sp_io::hashing::blake2_256: a 32-byte digest that depends on the input alone.
#[verifier::external_body]
pub(crate) fn blake2_256(data: &[u8]) -> (r: [u8; 32])
    ensures
        r@ == blake2_256_of(data@),
{
    sp_io::hashing::blake2_256(data)
}


/// The `n` low bytes of `x`, least significant first.
pub open spec fn le_bytes(x: nat, n: nat) -> Seq<u8>
    decreases n,
{
    if n == 0 {
        seq![]
    } else {
        seq![(x % 256) as u8] + le_bytes(x / 256, (n - 1) as nat)
    }
}

/// The compact length prefix: two mode bits in the low bits of the first byte.
pub open spec fn compact_len(n: nat) -> Seq<u8> {
    if n < 64 {
        le_bytes(n * 4, 1)
    } else if n < 16384 {
        le_bytes(n * 4 + 1, 2)
    } else if n < 1073741824 {
        le_bytes(n * 4 + 2, 4)
    } else {
        seq![3u8] + le_bytes(n, 4)
    }
}

/// An optional price: a zero byte, or a one byte and eight bytes of the amount.
pub open spec fn encode_price(p: Option<u64>) -> Seq<u8> {
    match p {
        None => seq![0u8],
        Some(v) => seq![1u8] + le_bytes(v as nat, 8),
    }
}

/// A gender as one byte.
pub open spec fn encode_gender(g: Gender) -> Seq<u8> {
    match g {
        Gender::Male => seq![0u8],
        Gender::Female => seq![1u8],
    }
}

/// An optional name: a zero byte, or a one byte, the compact length and the bytes.
pub open spec fn encode_name(n: Option<Seq<u8>>) -> Seq<u8> {
    match n {
        None => seq![0u8],
        Some(s) => seq![1u8] + compact_len(s.len()) + s,
    }
}

/// The canonical encoding of a kitty: dna, price, gender, owner and name in turn.
pub open spec fn encode_kitty(k: KittyView) -> Seq<u8> {
    k.dna + encode_price(k.price) + encode_gender(k.gender) + le_bytes(k.owner as nat, 8)
        + encode_name(k.name)
}

/// The identity of a kitty: the digest of its encoding.
pub open spec fn kitty_id_of(k: KittyView) -> Seq<u8> {
    blake2_256_of(encode_kitty(k))
}

/// What fresh dna is drawn from: the random draw, the call's index, the block number.
pub open spec fn dna_payload(random: Seq<u8>, index: Option<u32>, block: u32) -> Seq<u8> {
    random + le_bytes(
        match index {
            Some(i) => i as nat,
            None => 0,
        },
        4,
    ) + le_bytes(block as nat, 4)
}

/// Appends the `n` low bytes of `x`, least significant first.
fn push_le(out: &mut Vec<u8>, x: u64, n: usize)
    requires
        n <= 8,
    ensures
        final(out)@ == old(out)@ + le_bytes(x as nat, n as nat),
    decreases n,
{
    if n == 0 {
        assert(final(out)@ =~= old(out)@ + le_bytes(x as nat, n as nat));
    } else {
        out.push((x % 256) as u8);
        push_le(out, x / 256, n - 1);
        assert(final(out)@ =~= old(out)@ + le_bytes(x as nat, n as nat));
    }
}

/// Appends the bytes of `s`.
fn push_bytes(out: &mut Vec<u8>, s: &[u8])
    ensures
        final(out)@ == old(out)@ + s@,
{
    let ghost start = out@;
    let mut i: usize = 0;
    while i < s.len()
        invariant
            i <= s@.len(),
            out@ == start + s@.subrange(0, i as int),
        decreases s@.len() - i,
    {
        out.push(s[i]);
        i = i + 1;
        assert(out@ =~= start + s@.subrange(0, i as int));
    }
    assert(s@.subrange(0, i as int) =~= s@);
}

/// Appends the compact length prefix of `n`.
fn push_compact_len(out: &mut Vec<u8>, n: usize)
    requires
        n <= u32::MAX,
    ensures
        final(out)@ == old(out)@ + compact_len(n as nat),
{
    let v = n as u64;
    if v < 64 {
        push_le(out, v * 4, 1);
    } else if v < 16384 {
        push_le(out, v * 4 + 1, 2);
    } else if v < 1073741824 {
        push_le(out, v * 4 + 2, 4);
    } else {
        let ghost before = out@;
        out.push(3u8);
        push_le(out, v, 4);
        assert(out@ =~= before + compact_len(n as nat));
    }
}

/// The canonical encoding of a kitty.
pub fn encode(k: &Kitty) -> (r: Vec<u8>)
    requires
        k.name matches Some(n) ==> n@.len() <= u32::MAX,
    ensures
        r@ == encode_kitty(k@),
{
    let mut out: Vec<u8> = Vec::new();
    push_bytes(&mut out, k.dna.as_slice());
    match k.price {
        None => out.push(0u8),
        Some(v) => {
            out.push(1u8);
            push_le(&mut out, v, 8);
        },
    }
    match k.gender {
        Gender::Male => out.push(0u8),
        Gender::Female => out.push(1u8),
    }
    push_le(&mut out, k.owner, 8);
    match &k.name {
        None => out.push(0u8),
        Some(n) => {
            out.push(1u8);
            push_compact_len(&mut out, n.len());
            push_bytes(&mut out, n.as_slice());
        },
    }
    assert(out@ =~= encode_kitty(k@));
    out
}

/// The identity of a kitty: the 256-bit digest of its encoding.
pub fn hash_of(k: &Kitty) -> (r: [u8; 32])
    requires
        k.name matches Some(n) ==> n@.len() <= u32::MAX,
    ensures
        r@ == kitty_id_of(k@),
{
    let bytes = encode(k);
    blake2_256(bytes.as_slice())
}

/// Fresh dna: the 128-bit digest of the dna payload of a random draw.
pub fn derive_dna(random: &[u8; 32], index: Option<u32>, block: u32) -> (r: [u8; 16])
    ensures
        r@ == blake2_128_of(dna_payload(random@, index, block)),
{
    let mut out: Vec<u8> = Vec::new();
    push_bytes(&mut out, random.as_slice());
    let i: u32 = match index {
        Some(i) => i,
        None => 0,
    };
    push_le(&mut out, i as u64, 4);
    push_le(&mut out, block as u64, 4);
    assert(out@ =~= dna_payload(random@, index, block));
    blake2_128(out.as_slice())
}

} // verus!
