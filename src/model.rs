//! The store's contents seen as a row of partition mappings, one per lock,
//! and what writes and reads do to it. A write of `k` is the critical
//! section that `ShardedDb::insert` runs under the lock of partition
//! `shard_of(k, n)` (`Shard::insert`); a read is the one that
//! `ShardedDb::get` runs under the same lock (`Shard::get`). Concurrent
//! calls take effect one critical section at a time, so every run of them
//! is some sequence of these steps.

use crate::routing::shard_of;
use vstd::prelude::*;

verus! {

/// An empty row of `n` partitions.
pub open spec fn empty_parts(n: nat) -> Seq<Map<Seq<char>, Seq<u8>>> {
    Seq::new(n, |i: int| Map::<Seq<char>, Seq<u8>>::empty())
}

/// The row after writing `v` under `k`: only partition `shard_of(k, n)`
/// changes, and in it `k` now maps to `v`.
pub open spec fn put_spec(
    parts: Seq<Map<Seq<char>, Seq<u8>>>,
    k: Seq<char>,
    v: Seq<u8>,
) -> Seq<Map<Seq<char>, Seq<u8>>> {
    let i = shard_of(k, parts.len()) as int;
    parts.update(i, parts[i].insert(k, v))
}

/// What a read of `k` finds: the value in partition `shard_of(k, n)`, if
/// that partition holds `k`.
pub open spec fn get_spec(parts: Seq<Map<Seq<char>, Seq<u8>>>, k: Seq<char>) -> Option<Seq<u8>> {
    let m = parts[shard_of(k, parts.len()) as int];
    if m.contains_key(k) {
        Some(m[k])
    } else {
        None
    }
}

/// The row after a sequence of writes, applied in order.
pub open spec fn put_all(
    parts: Seq<Map<Seq<char>, Seq<u8>>>,
    writes: Seq<(Seq<char>, Seq<u8>)>,
) -> Seq<Map<Seq<char>, Seq<u8>>>
    decreases writes.len(),
{
    if writes.len() == 0 {
        parts
    } else {
        put_spec(put_all(parts, writes.drop_last()), writes.last().0, writes.last().1)
    }
}

/// Every key held by partition `i` routes to `i`: the invariant that each
/// partition's lock keeps.
pub open spec fn well_routed(parts: Seq<Map<Seq<char>, Seq<u8>>>) -> bool {
    forall|i: int, k: Seq<char>|
        0 <= i < parts.len() && #[trigger] parts[i].contains_key(k) ==> shard_of(k, parts.len()) == i
}

/// Writes never change the number of partitions.
pub proof fn lemma_put_all_len(parts: Seq<Map<Seq<char>, Seq<u8>>>, writes: Seq<(Seq<char>, Seq<u8>)>)
    requires
        parts.len() > 0,
    ensures
        put_all(parts, writes).len() == parts.len(),
    decreases writes.len(),
{
    if writes.len() > 0 {
        lemma_put_all_len(parts, writes.drop_last());
    }
}

/// A write keeps every key in the partition it routes to.
pub proof fn lemma_put_keeps_routing(parts: Seq<Map<Seq<char>, Seq<u8>>>, k: Seq<char>, v: Seq<u8>)
    requires
        parts.len() > 0,
        well_routed(parts),
    ensures
        well_routed(put_spec(parts, k, v)),
{
}

/// Reading a key right after writing it gives the value written.
pub proof fn lemma_round_trip(parts: Seq<Map<Seq<char>, Seq<u8>>>, k: Seq<char>, v: Seq<u8>)
    requires
        parts.len() > 0,
    ensures
        get_spec(put_spec(parts, k, v), k) == Some(v),
{
}

/// Of two writes of the same key, the later one is what a read finds.
pub proof fn lemma_overwrite(
    parts: Seq<Map<Seq<char>, Seq<u8>>>,
    k: Seq<char>,
    v1: Seq<u8>,
    v2: Seq<u8>,
)
    requires
        parts.len() > 0,
    ensures
        get_spec(put_spec(put_spec(parts, k, v1), k, v2), k) == Some(v2),
{
}

/// Writing `k1` leaves what a read of any other key `k2` finds as it was,
/// whether or not `k2` shares `k1`'s partition, and leaves every other
/// partition untouched.
pub proof fn lemma_isolation(
    parts: Seq<Map<Seq<char>, Seq<u8>>>,
    k1: Seq<char>,
    v: Seq<u8>,
    k2: Seq<char>,
)
    requires
        parts.len() > 0,
        k1 != k2,
    ensures
        get_spec(put_spec(parts, k1, v), k2) == get_spec(parts, k2),
        forall|i: int|
            0 <= i < parts.len() && i != shard_of(k1, parts.len()) ==> #[trigger] put_spec(
                parts,
                k1,
                v,
            )[i] == parts[i],
{
}

/// On a fresh store, a key that no write names is not found, whatever
/// other keys were written.
pub proof fn lemma_absent(n: nat, writes: Seq<(Seq<char>, Seq<u8>)>, k: Seq<char>)
    requires
        n > 0,
        forall|j: int| 0 <= j < writes.len() ==> #[trigger] writes[j].0 != k,
    ensures
        get_spec(put_all(empty_parts(n), writes), k) == None::<Seq<u8>>,
    decreases writes.len(),
{
    if writes.len() > 0 {
        let w = writes.last();
        assert(w.0 == writes[writes.len() - 1].0);
        let prefix = writes.drop_last();
        assert forall|j: int| 0 <= j < prefix.len() implies #[trigger] prefix[j].0 != k by {
            assert(prefix[j] == writes[j]);
        }
        lemma_absent(n, prefix, k);
        lemma_put_all_len(empty_parts(n), prefix);
        lemma_isolation(put_all(empty_parts(n), prefix), w.0, w.1, k);
    }
}

/// Writes of two different keys commute: concurrent writes of distinct
/// keys leave the same contents in whichever order their critical sections
/// run, and a read of each finds its own value.
pub proof fn lemma_disjoint_writes(
    parts: Seq<Map<Seq<char>, Seq<u8>>>,
    k1: Seq<char>,
    v1: Seq<u8>,
    k2: Seq<char>,
    v2: Seq<u8>,
)
    requires
        parts.len() > 0,
        k1 != k2,
    ensures
        put_spec(put_spec(parts, k1, v1), k2, v2) =~~= put_spec(put_spec(parts, k2, v2), k1, v1),
        get_spec(put_spec(put_spec(parts, k1, v1), k2, v2), k1) == Some(v1),
        get_spec(put_spec(put_spec(parts, k1, v1), k2, v2), k2) == Some(v2),
{
    let a = put_spec(put_spec(parts, k1, v1), k2, v2);
    let b = put_spec(put_spec(parts, k2, v2), k1, v1);
    assert forall|i: int| 0 <= i < a.len() implies #[trigger] a[i] =~= b[i] by {}
    lemma_round_trip(put_spec(parts, k1, v1), k2, v2);
    lemma_isolation(put_spec(parts, k1, v1), k2, v2, k1);
}

/// Writes of one key with several values, in any order their critical
/// sections run, leave that key with one of the submitted values: the
/// one written last.
pub proof fn lemma_same_key_writes(parts: Seq<Map<Seq<char>, Seq<u8>>>, k: Seq<char>, vs: Seq<Seq<u8>>)
    requires
        parts.len() > 0,
        vs.len() > 0,
    ensures
        get_spec(put_all(parts, vs.map_values(|v: Seq<u8>| (k, v))), k) == Some(vs.last()),
        vs.contains(vs.last()),
{
    let writes = vs.map_values(|v: Seq<u8>| (k, v));
    lemma_put_all_len(parts, writes.drop_last());
    lemma_round_trip(put_all(parts, writes.drop_last()), k, vs.last());
    assert(vs[vs.len() - 1] == vs.last());
}

} // verus!
