use std::collections::HashMap;
use std::hash::{BuildHasher, Hash};
use vstd::prelude::*;
use vstd::std_specs::hash::{builds_valid_hashers, obeys_key_model};

use crate::seed::WithAllocSeed;
use crate::seq::{step_after, Step};

verus! {

/// The entries of a map read so far, and the allocator handle that each key
/// and value is built with.
#[verifier::reject_recursive_types(K)]
#[verifier::reject_recursive_types(S)]
pub struct MapCollector<K, V, S, A> {
    map: HashMap<K, V, S>,
    handle: A,
    accepted: Ghost<Seq<(K, V)>>,
}

/// The map that inserting `entries` in order into `m` gives: a later entry for
/// a key replaces an earlier one.
pub open spec fn insert_all<K, V>(m: Map<K, V>, entries: Seq<(K, V)>) -> Map<K, V>
    decreases entries.len(),
{
    if entries.len() == 0 {
        m
    } else {
        insert_all(m, entries.drop_last()).insert(entries.last().0, entries.last().1)
    }
}

impl<K: Eq + Hash, V, S: BuildHasher + Default, A: Clone> MapCollector<K, V, S, A> {
    /// The entries read so far.
    pub closed spec fn entries(&self) -> Map<K, V> {
        self.map@
    }

    /// The entries accepted so far, in the order they came.
    pub closed spec fn accepted(&self) -> Seq<(K, V)> {
        self.accepted@
    }

    /// For key types and hashers that follow the model of a hash table, the
    /// map holds what inserting the accepted entries in order gives.
    pub open spec fn holds_accepted(&self) -> bool {
        obeys_key_model::<K>() && builds_valid_hashers::<S>() ==> self.entries() == insert_all(
            Map::<K, V>::empty(),
            self.accepted(),
        )
    }

    /// The allocator handle the keys and values are built with.
    pub closed spec fn allocator(&self) -> A {
        self.handle
    }

    /// An empty map, with a default hasher, and room for `size_hint` entries
    /// when the input gives a hint.
    pub fn new(size_hint: Option<usize>, alloc: A) -> (c: Self)
        ensures
            c.entries() == Map::<K, V>::empty(),
            c.accepted() == Seq::<(K, V)>::empty(),
            c.holds_accepted(),
            c.allocator() == alloc,
    {
        let mut map: HashMap<K, V, S> = HashMap::default();
        map.reserve(size_hint.unwrap_or(0));
        MapCollector { map, handle: alloc, accepted: Ghost(Seq::empty()) }
    }

    /// The seed for the next key: it builds the key with a clone of the
    /// allocator handle.
    pub fn key_seed(&self) -> (seed: WithAllocSeed<K, A>)
        ensures
            cloned(self.allocator(), seed.allocator()),
    {
        WithAllocSeed::new(self.handle.clone())
    }

    /// The seed for the next value: it builds the value with a clone of the
    /// allocator handle.
    pub fn value_seed(&self) -> (seed: WithAllocSeed<V, A>)
        ensures
            cloned(self.allocator(), seed.allocator()),
    {
        WithAllocSeed::new(self.handle.clone())
    }

    /// Takes what the input gave for the next entry and says how to go on.
    /// What the map holds afterwards is stated for key types and hashers that
    /// follow the model of a hash table (as the standard library's do): the
    /// entry is inserted, so a map that held what inserting the entries
    /// accepted before gives holds what inserting them and this one gives.
    pub fn accept<E>(&mut self, next: Result<Option<(K, V)>, E>) -> (s: Step<E>)
        ensures
            s == step_after(next),
            final(self).allocator() == old(self).allocator(),
            final(self).accepted() == (match next {
                Ok(Some((k, v))) => old(self).accepted().push((k, v)),
                _ => old(self).accepted(),
            }),
            obeys_key_model::<K>() && builds_valid_hashers::<S>() ==> final(self).entries() == (
            match next {
                Ok(Some((k, v))) => old(self).entries().insert(k, v),
                _ => old(self).entries(),
            }),
            old(self).holds_accepted() ==> final(self).holds_accepted(),
    {
        match next {
            Ok(Some((k, v))) => {
                let ghost acc = self.accepted@.push((k, v));
                proof {
                    assert(acc.drop_last() =~= self.accepted@);
                }
                self.map.insert(k, v);
                self.accepted = Ghost(acc);
                Step::Continue
            },
            Ok(None) => Step::Done,
            Err(e) => Step::Failed(e),
        }
    }

    /// The map read.
    pub fn finish(self) -> (m: HashMap<K, V, S>)
        ensures
            m@ == self.entries(),
    {
        self.map
    }
}

/// A map read from entries holds exactly the keys of the entries, and for
/// each key the value of the last entry with that key.
pub proof fn law_map_last_entry_wins<K, V>(entries: Seq<(K, V)>)
    ensures
        forall|k: K|
            #![trigger insert_all(Map::<K, V>::empty(), entries).contains_key(k)]
            insert_all(Map::<K, V>::empty(), entries).contains_key(k) <==> exists|i: int|
                0 <= i < entries.len() && (#[trigger] entries[i]).0 == k,
        forall|i: int|
            0 <= i < entries.len() && (forall|j: int| i < j < entries.len() ==> (#[trigger] entries[j]).0 != entries[i].0)
                ==> insert_all(Map::<K, V>::empty(), entries)[(#[trigger] entries[i]).0] == entries[i].1,
    decreases entries.len(),
{
    if entries.len() > 0 {
        let p = entries.drop_last();
        let n = entries.len() - 1;
        law_map_last_entry_wins::<K, V>(p);
        let m = insert_all(Map::<K, V>::empty(), entries);
        assert forall|k: K| #[trigger] m.contains_key(k) implies exists|i: int|
            0 <= i < entries.len() && (#[trigger] entries[i]).0 == k by {
            if k == entries.last().0 {
                assert(entries[n].0 == k);
            } else {
                assert(insert_all(Map::<K, V>::empty(), p).contains_key(k));
                let i = choose|i: int| 0 <= i < p.len() && (#[trigger] p[i]).0 == k;
                assert(entries[i] == p[i]);
            }
        }
        assert forall|k: K| (exists|i: int| 0 <= i < entries.len() && (#[trigger] entries[i]).0 == k)
            implies #[trigger] m.contains_key(k) by {
            let i = choose|i: int| 0 <= i < entries.len() && (#[trigger] entries[i]).0 == k;
            if i < n {
                assert(p[i] == entries[i]);
                assert(insert_all(Map::<K, V>::empty(), p).contains_key(k));
            }
        }
        assert forall|i: int|
            0 <= i < entries.len() && (forall|j: int| i < j < entries.len() ==> (#[trigger] entries[j]).0 != entries[i].0)
                implies m[(#[trigger] entries[i]).0] == entries[i].1 by {
            if i < n {
                assert(entries[n].0 != entries[i].0);
                assert(p[i] == entries[i]);
                assert forall|j: int| i < j < p.len() implies (#[trigger] p[j]).0 != p[i].0 by {
                    assert(p[j] == entries[j]);
                }
            }
        }
    }
}

} // verus!
