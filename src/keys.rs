//! Keys of the registry's double maps: a pair of keys packs into one integer
//! (the first in the high bits, the second in the low 32), and a map keyed
//! by packed integers reads as a map keyed by pairs.

use vstd::prelude::*;

verus! {

/// The packed key of a pair of kitty indices.
pub open spec fn index_pair_key(a: u32, b: u32) -> u64 {
    ((a as u64) << 32u64) | (b as u64)
}

/// The packed key of an account and a kitty index.
pub open spec fn account_index_key(a: u64, i: u32) -> u128 {
    ((a as u128) << 32u128) | (i as u128)
}

/// A map keyed by packed index pairs, read as a map keyed by the pairs.
pub open spec fn index_pair_view(m: Map<u64, u32>) -> Map<(u32, u32), u32> {
    Map::new(
        |k: (u32, u32)| m.contains_key(index_pair_key(k.0, k.1)),
        |k: (u32, u32)| m[index_pair_key(k.0, k.1)],
    )
}

/// A map keyed by packed account and index, read as a map keyed by the pairs.
pub open spec fn account_index_view(m: Map<u128, u32>) -> Map<(u64, u32), u32> {
    Map::new(
        |k: (u64, u32)| m.contains_key(account_index_key(k.0, k.1)),
        |k: (u64, u32)| m[account_index_key(k.0, k.1)],
    )
}

/// Packs a pair of kitty indices into one key.
pub fn pack_index_pair(a: u32, b: u32) -> (r: u64)
    ensures
        r == index_pair_key(a, b),
{
    ((a as u64) << 32u64) | (b as u64)
}

/// Packs an account and a kitty index into one key.
pub fn pack_account_index(a: u64, i: u32) -> (r: u128)
    ensures
        r == account_index_key(a, i),
{
    ((a as u128) << 32u128) | (i as u128)
}

/// Distinct index pairs pack into distinct keys.
pub proof fn lemma_index_pair_key_injective(a: u32, b: u32, c: u32, d: u32)
    ensures
        (index_pair_key(a, b) == index_pair_key(c, d)) == (a == c && b == d),
{
    let (a1, b1, c1, d1) = (a as u64, b as u64, c as u64, d as u64);
    assert(a1 < 0x1_0000_0000 && b1 < 0x1_0000_0000 && c1 < 0x1_0000_0000 && d1 < 0x1_0000_0000);
    assert((a1 < 0x1_0000_0000 && b1 < 0x1_0000_0000 && c1 < 0x1_0000_0000 && d1
        < 0x1_0000_0000) ==> ((((a1 << 32u64) | b1) == ((c1 << 32u64) | d1)) == (a1 == c1 && b1
        == d1))) by (bit_vector);
}

/// Distinct account and index pairs pack into distinct keys.
pub proof fn lemma_account_index_key_injective(a: u64, i: u32, b: u64, j: u32)
    ensures
        (account_index_key(a, i) == account_index_key(b, j)) == (a == b && i == j),
{
    let (a1, i1, b1, j1) = (a as u128, i as u128, b as u128, j as u128);
    assert(a1 < 0x1_0000_0000_0000_0000 && b1 < 0x1_0000_0000_0000_0000 && i1 < 0x1_0000_0000
        && j1 < 0x1_0000_0000);
    assert((a1 < 0x1_0000_0000_0000_0000 && b1 < 0x1_0000_0000_0000_0000 && i1 < 0x1_0000_0000
        && j1 < 0x1_0000_0000) ==> ((((a1 << 32u128) | i1) == ((b1 << 32u128) | j1)) == (a1
        == b1 && i1 == j1))) by (bit_vector);
}

/// Inserting under a packed key inserts under the pair.
pub proof fn lemma_index_pair_view_insert(m: Map<u64, u32>, a: u32, b: u32, v: u32)
    ensures
        index_pair_view(m.insert(index_pair_key(a, b), v)) == index_pair_view(m).insert((a, b), v),
{
    assert forall|k: (u32, u32)| #![auto] k != (a, b) implies index_pair_key(k.0, k.1)
        != index_pair_key(a, b) by {
        lemma_index_pair_key_injective(k.0, k.1, a, b);
    }
    assert(index_pair_view(m.insert(index_pair_key(a, b), v)) =~= index_pair_view(m).insert(
        (a, b),
        v,
    ));
}

/// Inserting under a packed key inserts under the pair.
pub proof fn lemma_account_index_view_insert(m: Map<u128, u32>, a: u64, i: u32, v: u32)
    ensures
        account_index_view(m.insert(account_index_key(a, i), v)) == account_index_view(m).insert(
            (a, i),
            v,
        ),
{
    assert forall|k: (u64, u32)| #![auto] k != (a, i) implies account_index_key(k.0, k.1)
        != account_index_key(a, i) by {
        lemma_account_index_key_injective(k.0, k.1, a, i);
    }
    assert(account_index_view(m.insert(account_index_key(a, i), v)) =~= account_index_view(
        m,
    ).insert((a, i), v));
}

/// Removing a packed key removes the pair.
pub proof fn lemma_account_index_view_remove(m: Map<u128, u32>, a: u64, i: u32)
    ensures
        account_index_view(m.remove(account_index_key(a, i))) == account_index_view(m).remove(
            (a, i),
        ),
{
    assert forall|k: (u64, u32)| #![auto] k != (a, i) implies account_index_key(k.0, k.1)
        != account_index_key(a, i) by {
        lemma_account_index_key_injective(k.0, k.1, a, i);
    }
    assert(account_index_view(m.remove(account_index_key(a, i))) =~= account_index_view(
        m,
    ).remove((a, i)));
}

} // verus!
