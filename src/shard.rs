//! One partition's mapping from keys to values: each key appears at most
//! once, and writing a key replaces its earlier value.

use crate::payload::content_of;
use bytes::Bytes;
use vstd::prelude::*;

verus! {

/// Whether entry `i` of `entries` holds the key `k`.
pub open spec fn holds_at(entries: Seq<(String, Bytes)>, k: Seq<char>, i: int) -> bool {
    0 <= i < entries.len() && entries[i].0@ == k
}

/// No key appears in two entries.
pub open spec fn keys_unique(entries: Seq<(String, Bytes)>) -> bool {
    forall|i: int, j: int|
        #![trigger entries[i], entries[j]]
        0 <= i < entries.len() && 0 <= j < entries.len() && i != j ==> entries[i].0@ != entries[j].0@
}

/// The mapping that a list of entries stands for: each key to the content
/// of the value stored beside it.
pub open spec fn entries_view(entries: Seq<(String, Bytes)>) -> Map<Seq<char>, Seq<u8>> {
    Map::new(
        |k: Seq<char>| exists|i: int| holds_at(entries, k, i),
        |k: Seq<char>| content_of(entries[choose|i: int| holds_at(entries, k, i)].1),
    )
}

/// With unique keys, the key of entry `i` maps to that entry's value.
proof fn lemma_view_at(entries: Seq<(String, Bytes)>, i: int)
    requires
        keys_unique(entries),
        0 <= i < entries.len(),
    ensures
        entries_view(entries).contains_key(entries[i].0@),
        entries_view(entries)[entries[i].0@] == content_of(entries[i].1),
{
    let k = entries[i].0@;
    assert(holds_at(entries, k, i));
    let j = choose|j: int| holds_at(entries, k, j);
    assert(entries[j].0@ == k);
}

/// Replacing the value of entry `i` (keeping its key) replaces that key's
/// value in the mapping and leaves every other key as it was.
proof fn lemma_view_replace(entries: Seq<(String, Bytes)>, i: int, key: String, value: Bytes)
    requires
        keys_unique(entries),
        0 <= i < entries.len(),
        entries[i].0@ == key@,
    ensures
        keys_unique(entries.update(i, (key, value))),
        entries_view(entries.update(i, (key, value))) =~= entries_view(entries).insert(
            key@,
            content_of(value),
        ),
{
    let e2 = entries.update(i, (key, value));
    assert forall|j: int| 0 <= j < e2.len() implies #[trigger] e2[j].0@ == entries[j].0@ by {}
    assert forall|k: Seq<char>, j: int| #[trigger] holds_at(e2, k, j) == holds_at(entries, k, j) by {}
    assert forall|k: Seq<char>|
        #[trigger] entries_view(e2).contains_key(k) == (k == key@ || entries_view(
            entries,
        ).contains_key(k)) by {
        if k == key@ {
            assert(holds_at(e2, k, i));
        }
        if entries_view(e2).contains_key(k) {
            let j = choose|j: int| holds_at(e2, k, j);
            assert(holds_at(entries, k, j));
        }
        if entries_view(entries).contains_key(k) {
            let j = choose|j: int| holds_at(entries, k, j);
            assert(holds_at(e2, k, j));
        }
    }
    lemma_view_at(e2, i);
    assert forall|k: Seq<char>| k != key@ && entries_view(entries).contains_key(k) implies
        #[trigger] entries_view(e2)[k] == entries_view(entries)[k] by {
        let j = choose|j: int| holds_at(entries, k, j);
        lemma_view_at(entries, j);
        lemma_view_at(e2, j);
    }
}

/// Appending an entry with a key that no entry holds adds that key to the
/// mapping and leaves every other key as it was.
proof fn lemma_view_push(entries: Seq<(String, Bytes)>, key: String, value: Bytes)
    requires
        keys_unique(entries),
        forall|i: int| 0 <= i < entries.len() ==> #[trigger] entries[i].0@ != key@,
    ensures
        keys_unique(entries.push((key, value))),
        entries_view(entries.push((key, value))) =~= entries_view(entries).insert(
            key@,
            content_of(value),
        ),
{
    let e2 = entries.push((key, value));
    let n = entries.len() as int;
    assert forall|j: int| 0 <= j < n implies #[trigger] e2[j] == entries[j] by {}
    assert forall|k: Seq<char>, j: int| k != key@ implies #[trigger] holds_at(e2, k, j) == holds_at(
        entries,
        k,
        j,
    ) by {}
    assert forall|k: Seq<char>|
        #[trigger] entries_view(e2).contains_key(k) == (k == key@ || entries_view(
            entries,
        ).contains_key(k)) by {
        if k == key@ {
            assert(holds_at(e2, k, n));
        }
        if entries_view(e2).contains_key(k) && k != key@ {
            let j = choose|j: int| holds_at(e2, k, j);
            assert(holds_at(entries, k, j));
        }
        if entries_view(entries).contains_key(k) {
            let j = choose|j: int| holds_at(entries, k, j);
            assert(holds_at(e2, k, j));
        }
    }
    lemma_view_at(e2, n);
    assert forall|k: Seq<char>| k != key@ && entries_view(entries).contains_key(k) implies
        #[trigger] entries_view(e2)[k] == entries_view(entries)[k] by {
        let j = choose|j: int| holds_at(entries, k, j);
        lemma_view_at(entries, j);
        lemma_view_at(e2, j);
    }
}

/// A partition's mapping.
pub struct Shard {
    entries: Vec<(String, Bytes)>,
}

impl View for Shard {
    type V = Map<Seq<char>, Seq<u8>>;

    closed spec fn view(&self) -> Map<Seq<char>, Seq<u8>> {
        entries_view(self.entries@)
    }
}

impl Shard {
    /// The mapping's internal consistency: no key is stored twice.
    pub closed spec fn wf(&self) -> bool {
        keys_unique(self.entries@)
    }

    /// An empty mapping.
    pub fn new() -> (r: Shard)
        ensures
            r.wf(),
            r@ == Map::<Seq<char>, Seq<u8>>::empty(),
    {
        let r = Shard { entries: Vec::new() };
        assert(r@ =~= Map::<Seq<char>, Seq<u8>>::empty());
        r
    }

    /// Position of the entry that holds `key`, if any.
    fn find(&self, key: &String) -> (r: Option<usize>)
        requires
            self.wf(),
        ensures
            match r {
                Some(i) => holds_at(self.entries@, key@, i as int),
                None => forall|i: int|
                    0 <= i < self.entries@.len() ==> #[trigger] self.entries@[i].0@ != key@,
            },
    {
        let mut i: usize = 0;
        while i < self.entries.len()
            invariant
                i <= self.entries@.len(),
                forall|j: int| 0 <= j < i ==> #[trigger] self.entries@[j].0@ != key@,
            decreases self.entries@.len() - i,
        {
            if self.entries[i].0 == *key {
                return Some(i);
            }
            i = i + 1;
        }
        None
    }

    /// Stores `value` under `key`, replacing any earlier value of that key.
    pub fn insert(&mut self, key: String, value: Bytes)
        requires
            old(self).wf(),
        ensures
            final(self).wf(),
            final(self)@ == old(self)@.insert(key@, content_of(value)),
    {
        match self.find(&key) {
            Some(i) => {
                proof {
                    lemma_view_replace(self.entries@, i as int, key, value);
                }
                self.entries.set(i, (key, value));
            },
            None => {
                proof {
                    lemma_view_push(self.entries@, key, value);
                }
                self.entries.push((key, value));
            },
        }
    }

    /// The value stored under `key`, as a clone that shares its bytes with
    /// the stored one, or `None` where the key was never written.
    pub fn get(&self, key: &String) -> (r: Option<Bytes>)
        requires
            self.wf(),
        ensures
            r is Some <==> self@.contains_key(key@),
            r is Some ==> content_of(r->0) == self@[key@],
    {
        match self.find(key) {
            Some(i) => {
                proof {
                    lemma_view_at(self.entries@, i as int);
                }
                Some(self.entries[i].1.clone())
            },
            None => None,
        }
    }
}

} // verus!
