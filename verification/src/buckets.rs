//! Maps from a key to a non-empty set of values, the shape of every
//! secondary index.

use std::collections::HashMap;
use std::collections::HashSet;
use std::hash::Hash;
use vstd::prelude::*;

verus! {

broadcast use vstd::std_specs::hash::group_hash_axioms;

/// A map from keys to buckets. A key is present exactly when its bucket holds
/// at least one value.
pub struct Buckets<K, V> {
    map: HashMap<K, HashSet<V>>,
}

impl<K: Copy + Eq + Hash, V: Copy + Eq + Hash> Buckets<K, V> {
    /// No bucket is stored empty, and both key types hash as their values.
    pub closed spec fn wf(&self) -> bool {
        &&& vstd::std_specs::hash::obeys_key_model::<K>()
        &&& vstd::std_specs::hash::obeys_key_model::<V>()
        &&& forall|k: K| #[trigger]
            self.map@.contains_key(k) ==> self.map@[k]@.finite() && self.map@[k]@.len() > 0
    }

    /// The values filed under `k`; empty when the key is absent.
    pub closed spec fn bucket(&self, k: K) -> Set<V> {
        if self.map@.contains_key(k) {
            self.map@[k]@
        } else {
            Set::empty()
        }
    }

    /// The keys that have a bucket.
    pub closed spec fn keys(&self) -> Set<K> {
        self.map@.dom()
    }

    /// A key has a bucket exactly when something is filed under it.
    pub proof fn lemma_keys(&self, k: K)
        requires
            self.wf(),
        ensures
            self.keys().contains(k) <==> self.bucket(k).len() > 0,
            self.keys().contains(k) <==> exists|v: V| self.bucket(k).contains(v),
            self.bucket(k).finite(),
            self.keys().finite(),
    {
        if self.keys().contains(k) {
            assert(self.bucket(k).contains(self.bucket(k).choose()));
        }
    }

    pub fn new() -> (r: Self)
        requires
            vstd::std_specs::hash::obeys_key_model::<K>(),
            vstd::std_specs::hash::obeys_key_model::<V>(),
        ensures
            r.wf(),
            r.keys() == Set::<K>::empty(),
            forall|k: K| r.bucket(k) == Set::<V>::empty(),
    {
        Buckets { map: HashMap::new() }
    }

    /// Files `v` under `k`.
    pub fn insert(&mut self, k: K, v: V)
        requires
            old(self).wf(),
        ensures
            final(self).wf(),
            final(self).bucket(k) == old(self).bucket(k).insert(v),
            forall|k2: K| k2 != k ==> final(self).bucket(k2) == old(self).bucket(k2),
            final(self).keys() == old(self).keys().insert(k),
    {
        let mut set = match self.map.remove(&k) {
            Some(s) => s,
            None => HashSet::new(),
        };
        set.insert(v);
        self.map.insert(k, set);
    }

    /// Takes `v` out of the bucket of `k`; the key leaves with its last value.
    pub fn remove(&mut self, k: K, v: V)
        requires
            old(self).wf(),
        ensures
            final(self).wf(),
            final(self).bucket(k) == old(self).bucket(k).remove(v),
            forall|k2: K| k2 != k ==> final(self).bucket(k2) == old(self).bucket(k2),
            final(self).keys() == if final(self).bucket(k).len() > 0 {
                old(self).keys()
            } else {
                old(self).keys().remove(k)
            },
    {
        match self.map.remove(&k) {
            Some(s) => {
                let mut set = s;
                set.remove(&v);
                if set.len() > 0 {
                    self.map.insert(k, set);
                }
            },
            None => {},
        }
    }

    /// The number of keys.
    pub fn len(&self) -> (r: usize)
        requires
            self.wf(),
        ensures
            r == self.keys().len(),
    {
        self.map.len()
    }

    /// One of the values filed under `k`, if there is one.
    pub fn any(&self, k: K) -> (r: Option<V>)
        requires
            self.wf(),
        ensures
            r matches Some(v) ==> self.bucket(k).contains(v),
            r is None ==> self.bucket(k) == Set::<V>::empty(),
    {
        match self.map.get(&k) {
            Some(set) => {
                let ghost all = vstd::std_specs::iter::IteratorSpec::remaining(
                    &vstd::std_specs::hash::spec_hash_keys_iter(set),
                );
                for v in it: set.iter()
                    invariant
                        it.seq() == all,
                        it.index() == 0,
                        all.unref().to_set() == set@,
                        set@ == self.bucket(k),
                {
                    proof {
                        assert(all.unref()[0] == *v);
                        assert(all.unref().to_set().contains(*v));
                    }
                    return Some(*v);
                }
                proof {
                    assert(all.len() == 0);
                }
                None
            },
            None => None,
        }
    }

    /// The keys, each once, in no particular order.
    pub fn key_list(&self) -> (r: Vec<K>)
        requires
            self.wf(),
        ensures
            r@.no_duplicates(),
            r@.to_set() == self.keys(),
    {
        let mut out: Vec<K> = Vec::new();
        let ghost all = vstd::std_specs::iter::IteratorSpec::remaining(
            &vstd::std_specs::hash::spec_keys_iter(&self.map),
        );
        for k in it: self.map.keys()
            invariant
                it.seq() == all,
                out@.len() == it.index(),
                forall|j: int| 0 <= j < out@.len() ==> out@[j] == *it.seq()[j],
        {
            out.push(*k);
        }
        proof {
            assert(out@ =~= all.unref());
            assert(out@.no_duplicates()) by {
                assert forall|i: int, j: int|
                    0 <= i < out@.len() && 0 <= j < out@.len() && i != j implies out@[i]
                    != out@[j] by {
                    assert(all[i] != all[j]);
                }
            }
        }
        out
    }

    /// The values filed under `k`, each once, in no particular order.
    pub fn items(&self, k: K) -> (r: Vec<V>)
        requires
            self.wf(),
        ensures
            r@.no_duplicates(),
            r@.to_set() == self.bucket(k),
            r@.len() == self.bucket(k).len(),
    {
        let mut out: Vec<V> = Vec::new();
        match self.map.get(&k) {
            Some(set) => {
                let ghost all = vstd::std_specs::iter::IteratorSpec::remaining(
                    &vstd::std_specs::hash::spec_hash_keys_iter(set),
                );
                for v in it: set.iter()
                    invariant
                        it.seq() == all,
                        out@.len() == it.index(),
                        forall|j: int| 0 <= j < out@.len() ==> out@[j] == *it.seq()[j],
                {
                    out.push(*v);
                }
                proof {
                    assert(out@ =~= all.unref());
                    assert(out@.no_duplicates()) by {
                        assert forall|i: int, j: int|
                            0 <= i < out@.len() && 0 <= j < out@.len() && i != j implies out@[i]
                            != out@[j] by {
                            assert(all[i] != all[j]);
                        }
                    }
                }
            },
            None => {
                assert(out@.to_set() =~= Set::<V>::empty());
            },
        }
        out
    }
}

} // verus!
