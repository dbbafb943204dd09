//! A map whose keys are texts, found by their hashes.
use crate::places::{hash_of_text, text_hash};
use std::collections::HashMap;
use vstd::prelude::*;
use vstd::std_specs::hash::group_hash_axioms;

verus! {

broadcast use group_hash_axioms;

/// A map from texts to values.
#[derive(Debug)]
pub struct TextMap<V> {
    entries: Vec<(String, V)>,
    /// The places of the entries whose keys have a hash.
    buckets: HashMap<u64, Vec<usize>>,
}

/// The map that entries with different keys make up.
pub closed spec fn map_of<V>(entries: Seq<(String, V)>) -> Map<Seq<char>, V>
    decreases entries.len(),
{
    if entries.len() == 0 {
        Map::empty()
    } else {
        map_of(entries.drop_last()).insert(entries.last().0@, entries.last().1)
    }
}

spec fn keys_differ<V>(entries: Seq<(String, V)>) -> bool {
    forall|i: int, j: int|
        0 <= i < j < entries.len() ==> (#[trigger] entries[i]).0@ != (#[trigger] entries[j]).0@
}

proof fn lemma_map_of<V>(entries: Seq<(String, V)>)
    requires
        keys_differ(entries),
    ensures
        forall|i: int|
            0 <= i < entries.len() ==> map_of(entries).contains_pair(
                (#[trigger] entries[i]).0@,
                entries[i].1,
            ),
        forall|k: Seq<char>| #[trigger]
            map_of(entries).contains_key(k) ==> exists|i: int|
                0 <= i < entries.len() && (#[trigger] entries[i]).0@ == k,
        map_of(entries).dom().finite(),
        map_of(entries).len() == entries.len(),
    decreases entries.len(),
{
    if entries.len() > 0 {
        let rest = entries.drop_last();
        lemma_map_of(rest);
        let last = entries.last();
        assert(!map_of(rest).contains_key(last.0@)) by {
            if map_of(rest).contains_key(last.0@) {
                let i = choose|i: int| 0 <= i < rest.len() && (#[trigger] rest[i]).0@ == last.0@;
                assert(entries[i].0@ != entries[entries.len() - 1].0@);
            }
        }
        assert forall|i: int| 0 <= i < entries.len() implies map_of(entries).contains_pair(
            (#[trigger] entries[i]).0@,
            entries[i].1,
        ) by {
            if i < rest.len() {
                assert(rest[i] == entries[i]);
            }
        }
        assert forall|k: Seq<char>| #[trigger] map_of(entries).contains_key(k) implies exists|i: int|
            0 <= i < entries.len() && (#[trigger] entries[i]).0@ == k by {
            if k == last.0@ {
                assert(entries[entries.len() - 1].0@ == k);
            } else {
                let i = choose|i: int| 0 <= i < rest.len() && (#[trigger] rest[i]).0@ == k;
                assert(entries[i].0@ == k);
            }
        }
    }
}

/// To write another value for a key that has one is to insert it.
proof fn lemma_update<V>(entries: Seq<(String, V)>, i: int, entry: (String, V))
    requires
        keys_differ(entries),
        0 <= i < entries.len(),
        entries[i].0@ == entry.0@,
    ensures
        keys_differ(entries.update(i, entry)),
        map_of(entries.update(i, entry)) == map_of(entries).insert(entry.0@, entry.1),
    decreases entries.len(),
{
    let changed = entries.update(i, entry);
    let rest = entries.drop_last();
    let last = entries.last();
    if i == entries.len() - 1 {
        assert(changed.drop_last() == rest);
        assert(map_of(changed) == map_of(entries).insert(entry.0@, entry.1));
    } else {
        lemma_update(rest, i, entry);
        assert(changed.drop_last() == rest.update(i, entry));
        assert(entries[i].0@ != entries[entries.len() - 1].0@);
        assert(map_of(changed) == map_of(entries).insert(entry.0@, entry.1));
    }
}

impl<V> View for TextMap<V> {
    type V = Map<Seq<char>, V>;

    closed spec fn view(&self) -> Map<Seq<char>, V> {
        map_of(self.entries@)
    }
}

impl<V> TextMap<V> {
    /// Every entry has its own key and can be found by the hash of that key.
    #[verifier::type_invariant]
    spec fn wf(self) -> bool {
        &&& keys_differ(self.entries@)
        &&& forall|i: int|
            #![trigger self.entries@[i]]
            0 <= i < self.entries@.len() ==> {
                let hash = text_hash(self.entries@[i].0@);
                self.buckets@.contains_key(hash) && self.buckets@[hash]@.contains(i as usize)
            }
        &&& forall|hash: u64, j: int|
            #![trigger self.buckets@[hash]@[j]]
            self.buckets@.contains_key(hash) && 0 <= j < self.buckets@[hash]@.len()
                ==> self.buckets@[hash]@[j] < self.entries@.len()
    }

    pub fn new() -> (r: TextMap<V>)
        ensures
            r@ == Map::<Seq<char>, V>::empty(),
    {
        TextMap { entries: Vec::new(), buckets: HashMap::new() }
    }

    /// Where the entry for a key is.
    fn position(&self, key: &String) -> (r: Option<usize>)
        ensures
            match r {
                Some(i) => i < self.entries@.len() && self.entries@[i as int].0@ == key@,
                None => !self@.contains_key(key@),
            },
    {
        let hash: u64 = hash_of_text(key.as_str());
        proof {
            use_type_invariant(self);
            lemma_map_of(self.entries@);
        }
        match self.buckets.get(&hash) {
            None => None,
            Some(bucket) => {
                let mut j: usize = 0;
                while j < bucket.len()
                    invariant
                        j <= bucket.len(),
                        forall|k: int|
                            0 <= k < bucket@.len() ==> #[trigger] bucket@[k] < self.entries@.len(),
                        forall|k: int|
                            0 <= k < j ==> self.entries@[#[trigger] bucket@[k] as int].0@ != key@,
                    decreases bucket.len() - j,
                {
                    if self.entries[bucket[j]].0 == *key {
                        return Some(bucket[j]);
                    }
                    j += 1;
                }
                proof {
                    assert(self.entries@.len() <= usize::MAX) by {
                        assert(self.entries@.len() == self.entries.len());
                    }
                    if self@.contains_key(key@) {
                        let i = choose|i: int|
                            0 <= i < self.entries@.len() && (#[trigger] self.entries@[i]).0@ == key@;
                        assert(bucket@.contains(i as usize));
                        let k = choose|k: int| 0 <= k < bucket@.len() && bucket@[k] == i as usize;
                        assert(self.entries@[bucket@[k] as int].0@ == key@);
                    }
                }
                None
            },
        }
    }

    /// The map in which a key has a value, in place of the one that it may have
    /// had.
    pub fn insert(self, key: String, value: V) -> (r: TextMap<V>)
        ensures
            r@ == self@.insert(key@, value),
    {
        proof {
            use_type_invariant(&self);
        }
        let place: Option<usize> = self.position(&key);
        let ghost before = self.entries@;
        let ghost old_buckets = self.buckets@;
        let TextMap { mut entries, mut buckets } = self;
        match place {
            Some(i) => {
                entries.set(i, (key, value));
                proof {
                    lemma_update(before, i as int, (key, value));
                    assert(forall|k: int|
                        0 <= k < before.len() ==> (#[trigger] entries@[k]).0@ == before[k].0@);
                }
            },
            None => {
                let hash: u64 = hash_of_text(key.as_str());
                let last: usize = entries.len();
                let mut bucket: Vec<usize> = match buckets.remove(&hash) {
                    Some(bucket) => bucket,
                    None => Vec::new(),
                };
                let ghost old_bucket = bucket@;
                bucket.push(last);
                buckets.insert(hash, bucket);
                entries.push((key, value));
                proof {
                    lemma_map_of(before);
                    assert(entries@.drop_last() == before);
                    assert(buckets@ == old_buckets.insert(hash, bucket));
                    assert(bucket@[old_bucket.len() as int] == last);
                    assert forall|i: int| 0 <= i < entries@.len() implies ({
                        let h = text_hash((#[trigger] entries@[i]).0@);
                        buckets@.contains_key(h) && buckets@[h]@.contains(i as usize)
                    }) by {
                        let h = text_hash(entries@[i].0@);
                        if i < before.len() {
                            assert(entries@[i] == before[i]);
                            if h == hash {
                                let k = choose|k: int|
                                    0 <= k < old_bucket.len() && old_bucket[k] == i as usize;
                                assert(bucket@[k] == i as usize);
                            }
                        }
                    }
                    assert forall|h: u64, j: int|
                        buckets@.contains_key(h) && 0 <= j < buckets@[h]@.len() implies (
                    #[trigger] buckets@[h]@[j]) < entries@.len() by {
                        if h == hash && j < old_bucket.len() {
                            assert(old_buckets[h]@[j] == bucket@[j]);
                        }
                    }
                }
            },
        }
        TextMap { entries, buckets }
    }

    /// The value for a key.
    pub fn get(&self, key: &String) -> (r: Option<&V>)
        ensures
            match r {
                Some(v) => self@.contains_key(key@) && self@[key@] == *v,
                None => !self@.contains_key(key@),
            },
    {
        proof {
            use_type_invariant(self);
            lemma_map_of(self.entries@);
        }
        match self.position(key) {
            None => None,
            Some(i) => Some(&self.entries[i].1),
        }
    }

    /// How many keys there are.
    pub fn len(&self) -> (r: usize)
        ensures
            r == self@.len(),
            self@.dom().finite(),
    {
        proof {
            use_type_invariant(self);
            lemma_map_of(self.entries@);
        }
        self.entries.len()
    }
}

} // verus!
