//! The sharded store: a fixed row of partitions, each behind its own
//! read-write lock, with no lock over the whole row. A key's partition is
//! `shard_of(key, n)`; each lock keeps the invariant that its mapping is
//! well formed and holds only keys that route to it.

use crate::routing::{route, shard_of};
use crate::shard::Shard;
use bytes::Bytes;
use vstd::prelude::*;
use vstd::rwlock::{RwLock, RwLockPredicate};

verus! {

/// The invariant that the lock of partition `index` (of `count`) keeps.
pub struct PartitionInv {
    pub index: nat,
    pub count: nat,
}

impl RwLockPredicate<Shard> for PartitionInv {
    open spec fn inv(self, s: Shard) -> bool {
        &&& s.wf()
        &&& forall|k: Seq<char>| #[trigger] s@.contains_key(k) ==> shard_of(k, self.count) == self.index
    }
}

/// Why a store could not be built.
#[derive(Debug, Clone, Copy, PartialEq, Eq, Structural)]
pub enum StoreError {
    /// A store needs at least one partition.
    InvalidConfiguration,
}

/// A key-value store split into a fixed number of independently locked
/// partitions.
pub struct ShardedDb {
    db: Vec<RwLock<Shard, PartitionInv>>,
}

impl ShardedDb {
    /// The number of partitions.
    pub closed spec fn num_shards(&self) -> nat {
        self.db@.len()
    }

    /// At least one partition, and partition `i` guarded by the invariant
    /// for index `i`.
    #[verifier::type_invariant]
    spec fn partitions_wf(&self) -> bool {
        &&& self.db@.len() > 0
        &&& forall|i: int|
            0 <= i < self.db@.len() ==> #[trigger] self.db@[i].pred() == (PartitionInv {
                index: i as nat,
                count: self.db@.len(),
            })
    }

    /// A store of `num_shards` empty partitions.
    pub fn new(num_shards: usize) -> (r: ShardedDb)
        requires
            num_shards > 0,
        ensures
            r.num_shards() == num_shards,
    {
        let mut db: Vec<RwLock<Shard, PartitionInv>> = Vec::with_capacity(num_shards);
        let mut i: usize = 0;
        while i < num_shards
            invariant
                i <= num_shards,
                db@.len() == i,
                forall|j: int|
                    0 <= j < i ==> #[trigger] db@[j].pred() == (PartitionInv {
                        index: j as nat,
                        count: num_shards as nat,
                    }),
            decreases num_shards - i,
        {
            let empty = Shard::new();
            let pred = Ghost(PartitionInv { index: i as nat, count: num_shards as nat });
            db.push(RwLock::new(empty, pred));
            i = i + 1;
        }
        ShardedDb { db }
    }

    /// A store of `num_shards` empty partitions, or `InvalidConfiguration`
    /// where `num_shards` is zero.
    pub fn try_new(num_shards: usize) -> (r: Result<ShardedDb, StoreError>)
        ensures
            num_shards == 0 <==> r is Err,
            r is Err ==> r->Err_0 == StoreError::InvalidConfiguration,
            r is Ok ==> r->Ok_0.num_shards() == num_shards,
    {
        if num_shards == 0 {
            Err(StoreError::InvalidConfiguration)
        } else {
            Ok(ShardedDb::new(num_shards))
        }
    }

    /// The number of partitions, fixed when the store was built.
    pub fn shard_count(&self) -> (r: usize)
        ensures
            r == self.num_shards(),
            r > 0,
    {
        proof {
            use_type_invariant(self);
        }
        self.db.len()
    }

    /// Stores `value` under `key`, replacing any earlier value of that key.
    /// Only the partition `shard_of(key, n)` is locked, exclusively, and
    /// under that lock its mapping `m` becomes `m.insert(key, content)`
    /// (the contract of `Shard::insert`); no other partition is touched.
    pub fn insert(&self, key: String, value: Bytes) {
        proof {
            use_type_invariant(self);
        }
        let i = route(key.as_str(), self.db.len());
        let (mut shard, handle) = self.db[i].acquire_write();
        shard.insert(key, value);
        handle.release_write(shard);
    }

    /// The value stored under `key`, or `None` where there is none. Only
    /// the partition `shard_of(key, n)` is locked, for reading; the value
    /// handed back shares its bytes with the stored one and stays valid
    /// after the entry is overwritten (the contract of `Shard::get`).
    pub fn get(&self, key: String) -> (r: Option<Bytes>) {
        proof {
            use_type_invariant(self);
        }
        let i = route(key.as_str(), self.db.len());
        let handle = self.db[i].acquire_read();
        let r = handle.borrow().get(&key);
        handle.release_read();
        r
    }
}

} // verus!
