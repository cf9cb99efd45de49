//! Key-to-partition routing: the hash of a key's characters, reduced modulo
//! the number of partitions.

use vstd::prelude::*;

verus! {

/// The 64-bit hash that the standard library's `DefaultHasher`, started
/// from its fixed initial state, gives for a string with these characters.
pub uninterp spec fn key_hash(key: Seq<char>) -> u64;

/// Relies on `BuildHasher::hash_one` of `BuildHasherDefault<DefaultHasher>`:
/// every `DefaultHasher` made by `new`/`default` starts from the same state
/// (no per-process seed), so the hash depends on the key's characters alone.
#[verifier::external_body]
fn hash_key(key: &str) -> (r: u64)
    ensures
        r == key_hash(key@),
{
    let builder = std::hash::BuildHasherDefault::<std::hash::DefaultHasher>::default();
    std::hash::BuildHasher::hash_one(&builder, key)
}

/// The partition that holds `key` in a store of `shard_count` partitions.
pub open spec fn shard_of(key: Seq<char>, shard_count: nat) -> nat
    recommends
        shard_count > 0,
{
    (key_hash(key) as nat) % shard_count
}

/// The index of the partition that holds `key`, in `0..shard_count`.
pub fn route(key: &str, shard_count: usize) -> (r: usize)
    requires
        shard_count > 0,
    ensures
        r as nat == shard_of(key@, shard_count as nat),
        r < shard_count,
{
    let h = hash_key(key);
    (h % (shard_count as u64)) as usize
}

/// Routing is a function of the key's characters and the partition count:
/// two keys with the same characters go to the same partition, whichever
/// string values carry them and however often the route is computed.
pub proof fn lemma_route_stable(k1: Seq<char>, k2: Seq<char>, shard_count: nat)
    requires
        shard_count > 0,
        k1 == k2,
    ensures
        shard_of(k1, shard_count) == shard_of(k2, shard_count),
        shard_of(k1, shard_count) < shard_count,
{
}

} // verus!
