//! Genomes: the bytes a kitty carries, how a fresh one is derived, and how
//! two parents' genomes are crossed.

use vstd::prelude::*;

verus! {

/// A kitty's genome: sixteen bytes, fixed once the kitty exists.
#[derive(Clone, Copy, Debug, PartialEq, Eq)]
pub struct Kitty(pub [u8; 16]);

/// The byte that `combine_dna` yields: each bit from `dna1` where the
/// selector bit is set, from `dna2` where it is clear.
pub open spec fn combined_byte(dna1: u8, dna2: u8, selector: u8) -> u8 {
    (selector & dna1) | (!selector & dna2)
}

/// Crosses one byte of two genomes under a selector byte.
pub fn combine_dna(dna1: u8, dna2: u8, selector: u8) -> (r: u8)
    ensures
        r == combined_byte(dna1, dna2, selector),
{
    (selector & dna1) | (!selector & dna2)
}

/// The genome crossed from `dna1` and `dna2` under `selector`, byte by byte.
pub open spec fn crossed(dna1: Seq<u8>, dna2: Seq<u8>, selector: Seq<u8>) -> Seq<u8> {
    Seq::new(16, |i: int| combined_byte(dna1[i], dna2[i], selector[i]))
}

/// Crosses two genomes byte by byte under a selector genome.
pub fn combine_genomes(dna1: &[u8; 16], dna2: &[u8; 16], selector: &[u8; 16]) -> (r: [u8; 16])
    ensures
        r@ == crossed(dna1@, dna2@, selector@),
{
    let mut new_dna: [u8; 16] = [0u8; 16];
    let mut i: usize = 0;
    while i < 16
        invariant
            i <= 16,
            forall|j: int|
                0 <= j < i ==> #[trigger] new_dna@[j] == combined_byte(
                    dna1@[j],
                    dna2@[j],
                    selector@[j],
                ),
        decreases 16 - i,
    {
        new_dna[i] = combine_dna(dna1[i], dna2[i], selector[i]);
        i = i + 1;
    }
    assert(new_dna@ =~= crossed(dna1@, dna2@, selector@));
    new_dna
}

/// The `n` little-endian bytes of `x`.
pub open spec fn le_bytes(x: nat, n: nat) -> Seq<u8>
    decreases n,
{
    if n == 0 {
        seq![]
    } else {
        seq![(x % 256) as u8] + le_bytes(x / 256, (n - 1) as nat)
    }
}

/// The encoding of an optional ordinal: a 0 byte when absent, else a 1 byte
/// and the value's four little-endian bytes.
pub open spec fn encoded_ordinal(ordinal: Option<u32>) -> Seq<u8> {
    match ordinal {
        None => seq![0u8],
        Some(v) => seq![1u8] + le_bytes(v as nat, 4),
    }
}

/// The bytes hashed to derive a genome: the seed, the account's eight
/// little-endian bytes, then the encoded ordinal.
pub open spec fn dna_payload(seed: Seq<u8>, sender: u64, ordinal: Option<u32>) -> Seq<u8> {
    seed + le_bytes(sender as nat, 8) + encoded_ordinal(ordinal)
}

/// Relies on parity-scale-codec's `Encode::encode` for the tuple
/// `([u8; 32], u64, Option<u32>)`: a tuple encodes as its fields in order, a
/// byte array as its bytes with no length, an integer as its little-endian
/// bytes, and an option as a 0 byte, or a 1 byte followed by the value.
#[verifier::external_body]
fn encode_payload(seed: &[u8; 32], sender: u64, ordinal: Option<u32>) -> (r: Vec<u8>)
    ensures
        r@ == dna_payload(seed@, sender, ordinal),
{
    parity_scale_codec::Encode::encode(&(*seed, sender, ordinal))
}

/// The 128-bit Blake2b digest of `data`.
pub uninterp spec fn blake2_128_of(data: Seq<u8>) -> Seq<u8>;

/// Relies on sp_io::hashing::blake2_128: the 128-bit Blake2b digest of the
/// bytes, which depends on them alone.
#[verifier::external_body]
fn blake2_128(data: &Vec<u8>) -> (r: [u8; 16])
    ensures
        r@ == blake2_128_of(data@),
{
    sp_io::hashing::blake2_128(data.as_slice())
}

/// The genome derived for `sender` from a randomness seed and the ordinal of
/// the transition within its block.
pub open spec fn derived_dna(sender: u64, seed: Seq<u8>, ordinal: Option<u32>) -> Seq<u8> {
    blake2_128_of(dna_payload(seed, sender, ordinal))
}

/// Derives a genome: the digest of the seed, the account and the ordinal.
pub fn random_dna(sender: u64, seed: &[u8; 32], ordinal: Option<u32>) -> (r: [u8; 16])
    ensures
        r@ == derived_dna(sender, seed@, ordinal),
{
    let payload = encode_payload(seed, sender, ordinal);
    blake2_128(&payload)
}

} // verus!
