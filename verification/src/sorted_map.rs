//! Maps and sets that keep their keys in ascending order, as ordered trees
//! do: iterating over them visits the keys from smallest to largest.

use vstd::prelude::*;

use crate::order::{Order3, SortKey};

verus! {

/// A map whose entries are kept sorted by key, each key once.
pub struct SortedMap<K, V> {
    entries: Vec<(K, V)>,
}

impl<K: SortKey, V> SortedMap<K, V> {
    /// The keys, in ascending order.
    pub closed spec fn keys(&self) -> Seq<K::V> {
        self.entries@.map_values(|e: (K, V)| e.0@)
    }

    /// The values, in the order of their keys.
    pub closed spec fn values(&self) -> Seq<V> {
        self.entries@.map_values(|e: (K, V)| e.1)
    }

    /// The keys are strictly ascending, so no key is there twice.
    pub closed spec fn wf(&self) -> bool {
        forall|i: int, j: int|
            0 <= i < j < self.keys().len() ==> K::key_lt(
                #[trigger] self.keys()[i],
                #[trigger] self.keys()[j],
            )
    }

    /// Where the key `k` stands.
    pub closed spec fn index_of_key(&self, k: K::V) -> int {
        choose|i: int| 0 <= i < self.keys().len() && self.keys()[i] == k
    }

    /// The map from keys to values.
    pub closed spec fn view(&self) -> Map<K::V, V> {
        Map::new(
            |k: K::V| self.keys().contains(k),
            |k: K::V| self.values()[self.index_of_key(k)],
        )
    }

    /// What a well-formed map tells about the entry at `i`.
    pub proof fn lemma_entry(&self, i: int)
        requires
            self.wf(),
            0 <= i < self.keys().len(),
        ensures
            self.index_of_key(self.keys()[i]) == i,
            self@.contains_key(self.keys()[i]),
            self@[self.keys()[i]] == self.values()[i],
    {
        K::lemma_key_order();
        let k = self.keys()[i];
        assert(self.keys().contains(k));
        let j = self.index_of_key(k);
        if j != i {
            if j < i {
                assert(K::key_lt(self.keys()[j], self.keys()[i]));
            } else {
                assert(K::key_lt(self.keys()[i], self.keys()[j]));
            }
        }
    }

    /// The keys of the map are the keys of the sequence.
    pub proof fn lemma_dom(&self)
        requires
            self.wf(),
        ensures
            forall|k: K::V| #[trigger] self@.contains_key(k) <==> self.keys().contains(k),
            forall|i: int|
                0 <= i < self.keys().len() ==> #[trigger] self@[self.keys()[i]] == self.values()[i],
            forall|i: int, j: int|
                0 <= i < j < self.keys().len() ==> K::key_lt(
                    #[trigger] self.keys()[i],
                    #[trigger] self.keys()[j],
                ),
    {
        assert forall|i: int|
            0 <= i < self.keys().len() implies #[trigger] self@[self.keys()[i]] == self.values()[i] by {
            self.lemma_entry(i);
        }
    }

    /// The number of keys matches the length of the key sequence.
    pub proof fn lemma_lengths(&self)
        ensures
            self.keys().len() == self.values().len(),
    {
    }

    /// An empty map.
    pub fn new() -> (r: Self)
        ensures
            r.wf(),
            r@ == Map::<K::V, V>::empty(),
            r.keys() == Seq::<K::V>::empty(),
    {
        let r = SortedMap { entries: Vec::new() };
        assert(r@ =~= Map::<K::V, V>::empty());
        assert(r.keys() =~= Seq::<K::V>::empty());
        r
    }

    /// The number of entries.
    pub fn len(&self) -> (r: usize)
        ensures
            r == self.keys().len(),
    {
        self.entries.len()
    }

    /// The key at position `i`.
    pub fn key_at(&self, i: usize) -> (r: &K)
        requires
            i < self.keys().len(),
        ensures
            r@ == self.keys()[i as int],
    {
        &self.entries[i].0
    }

    /// The value at position `i`.
    pub fn value_at(&self, i: usize) -> (r: &V)
        requires
            i < self.keys().len(),
        ensures
            *r == self.values()[i as int],
    {
        &self.entries[i].1
    }

    /// Looks for `k`: `Ok` with its position, or `Err` with the position it
    /// would be inserted at.
    pub fn search(&self, k: &K) -> (r: Result<usize, usize>)
        requires
            self.wf(),
        ensures
            match r {
                Ok(i) => i < self.keys().len() && self.keys()[i as int] == k@,
                Err(i) => i <= self.keys().len() && (forall|j: int|
                    0 <= j < i ==> K::key_lt(#[trigger] self.keys()[j], k@)) && (forall|j: int|
                    i <= j < self.keys().len() ==> K::key_lt(k@, #[trigger] self.keys()[j])),
            },
            r is Ok <==> self@.contains_key(k@),
    {
        proof {
            K::lemma_key_order();
        }
        let n = self.entries.len();
        let mut i: usize = 0;
        while i < n
            invariant
                n == self.keys().len(),
                self.wf(),
                i <= n,
                forall|j: int| 0 <= j < i ==> K::key_lt(#[trigger] self.keys()[j], k@),
            decreases n - i,
        {
            proof {
                K::lemma_key_order();
            }
            assert(self.keys()[i as int] == self.entries@[i as int].0@);
            match self.entries[i].0.key_order(k) {
                Order3::Less => {},
                Order3::Equal => {
                    assert(self.keys().contains(k@));
                    return Ok(i);
                },
                Order3::Greater => {
                    assert forall|j: int| i <= j < self.keys().len() implies K::key_lt(
                        k@,
                        #[trigger] self.keys()[j],
                    ) by {
                        if j > i {
                            assert(K::key_lt(self.keys()[i as int], self.keys()[j]));
                        }
                    }
                    assert(!self.keys().contains(k@)) by {
                        if self.keys().contains(k@) {
                            let j = choose|j: int| 0 <= j < self.keys().len() && self.keys()[j] == k@;
                            assert(!K::key_lt(k@, k@));
                        }
                    }
                    return Err(i);
                },
            }
            i = i + 1;
        }
        assert(!self.keys().contains(k@)) by {
            K::lemma_key_order();
            if self.keys().contains(k@) {
                let j = choose|j: int| 0 <= j < self.keys().len() && self.keys()[j] == k@;
                assert(!K::key_lt(k@, k@));
            }
        }
        Err(n)
    }

    /// Whether `k` is a key.
    pub fn contains_key(&self, k: &K) -> (r: bool)
        requires
            self.wf(),
        ensures
            r == self@.contains_key(k@),
    {
        self.search(k).is_ok()
    }

    /// The value of `k`, if it is a key.
    pub fn get(&self, k: &K) -> (r: Option<&V>)
        requires
            self.wf(),
        ensures
            match r {
                Some(v) => self@.contains_key(k@) && *v == self@[k@],
                None => !self@.contains_key(k@),
            },
    {
        match self.search(k) {
            Ok(i) => {
                proof {
                    self.lemma_entry(i as int);
                }
                Some(&self.entries[i].1)
            },
            Err(_) => None,
        }
    }

    /// Sets the value of `k`, which keeps its place if it was a key already,
    /// and returns the value it had.
    pub fn insert(&mut self, k: K, v: V) -> (r: Option<V>)
        requires
            old(self).wf(),
        ensures
            final(self).wf(),
            final(self)@ == old(self)@.insert(k@, v),
            match r {
                Some(prev) => old(self)@.contains_key(k@) && prev == old(self)@[k@],
                None => !old(self)@.contains_key(k@),
            },
            old(self)@.contains_key(k@) ==> final(self).keys() == old(self).keys(),
    {
        let ghost old_map = *self;
        proof {
            K::lemma_key_order();
        }
        match self.search(&k) {
            Ok(i) => {
                proof {
                    old_map.lemma_entry(i as int);
                }
                let (key, prev) = self.entries.remove(i);
                self.entries.insert(i, (key, v));
                assert(self.keys() =~= old_map.keys());
                assert(self.values() =~= old_map.values().update(i as int, v));
                proof {
                    assert forall|x: K::V| #[trigger] self@.contains_key(x) implies self@[x] == old_map@.insert(k@, v)[x] by {
                        let j = self.index_of_key(x);
                        self.lemma_entry(j);
                        old_map.lemma_entry(j);
                    }
                    assert(self@ =~= old_map@.insert(k@, v));
                }
                Some(prev)
            },
            Err(i) => {
                self.entries.insert(i, (k, v));
                assert(self.keys() =~= old_map.keys().insert(i as int, k@));
                assert(self.values() =~= old_map.values().insert(i as int, v));
                assert(self.wf()) by {
                    assert forall|a: int, b: int|
                        0 <= a < b < self.keys().len() implies K::key_lt(
                        #[trigger] self.keys()[a],
                        #[trigger] self.keys()[b],
                    ) by {
                        if b < i {
                            assert(K::key_lt(old_map.keys()[a], old_map.keys()[b]));
                        } else if b == i {
                            assert(K::key_lt(old_map.keys()[a], k@));
                        } else if a == i {
                            assert(K::key_lt(k@, old_map.keys()[b - 1]));
                        } else if a < i {
                            assert(K::key_lt(old_map.keys()[a], old_map.keys()[b - 1]));
                        } else {
                            assert(K::key_lt(old_map.keys()[a - 1], old_map.keys()[b - 1]));
                        }
                    }
                }
                proof {
                    assert forall|x: K::V| #[trigger] self@.contains_key(x) == old_map@.insert(
                        k@,
                        v,
                    ).contains_key(x) by {
                        if self.keys().contains(x) {
                            let j = choose|j: int| 0 <= j < self.keys().len() && self.keys()[j] == x;
                            if j < i {
                                assert(old_map.keys()[j] == x);
                            } else if j > i {
                                assert(old_map.keys()[j - 1] == x);
                            }
                        }
                        if old_map.keys().contains(x) {
                            let j = choose|j: int|
                                0 <= j < old_map.keys().len() && old_map.keys()[j] == x;
                            if j < i {
                                assert(self.keys()[j] == x);
                            } else {
                                assert(self.keys()[j + 1] == x);
                            }
                        }
                        if x == k@ {
                            assert(self.keys()[i as int] == x);
                        }
                    }
                    assert forall|x: K::V| #[trigger] self@.contains_key(x) implies self@[x]
                        == old_map@.insert(k@, v)[x] by {
                        let j = self.index_of_key(x);
                        self.lemma_entry(j);
                        if j < i {
                            old_map.lemma_entry(j);
                        } else if j > i {
                            old_map.lemma_entry(j - 1);
                        }
                    }
                    assert(self@ =~= old_map@.insert(k@, v));
                }
                None
            },
        }
    }

    /// A map of the pairs in `entries`; of several pairs with the same key,
    /// the last one stays.
    pub fn from_entries(entries: Vec<(K, V)>) -> (r: Self)
        ensures
            r.wf(),
            forall|k: K::V| #[trigger]
                r@.contains_key(k) <==> exists|i: int| 0 <= i < entries@.len() && entries@[i].0@ == k,
            forall|i: int|
                #![trigger entries@[i]]
                0 <= i < entries@.len() && (forall|j: int|
                    i < j < entries@.len() ==> entries@[j].0@ != entries@[i].0@) ==> r@[entries@[i].0@]
                    == entries@[i].1,
    {
        let ghost all = entries@;
        let mut map: SortedMap<K, V> = SortedMap::new();
        let mut rest = entries;
        let total = rest.len();
        let mut k: usize = 0;
        // Each entry replaces an earlier one with the same key, so the last
        // one of each key stays.
        while rest.len() > 0
            invariant
                map.wf(),
                all.len() == total,
                k <= all.len(),
                rest@ == all.subrange(k as int, all.len() as int),
                forall|key: K::V|
                    #[trigger] map@.contains_key(key) <==> exists|i: int|
                        0 <= i < k && all[i].0@ == key,
                forall|i: int|
                    #![trigger all[i]]
                    0 <= i < k && (forall|j: int| i < j < k ==> all[j].0@ != all[i].0@)
                        ==> map@[all[i].0@] == all[i].1,
            decreases rest.len(),
        {
            let (key, value) = rest.remove(0);
            assert((key, value) == all[k as int]);
            assert(rest@ =~= all.subrange(k + 1, all.len() as int));
            let ghost kv = key@;
            map.insert(key, value);
            proof {
                assert forall|i: int|
                    #![trigger all[i]]
                    0 <= i < k + 1 && (forall|j: int| i < j < k + 1 ==> all[j].0@ != all[i].0@)
                        implies map@[all[i].0@] == all[i].1 by {
                    if i < k {
                        assert(all[k as int].0@ != all[i].0@);
                    }
                }
                assert forall|n: K::V|
                    #[trigger] map@.contains_key(n) <==> exists|i: int| 0 <= i < k + 1 && all[i].0@ == n by {
                    if n == kv {
                        assert(all[k as int].0@ == n);
                    }
                }
            }
            k = k + 1;
        }
        map
    }

    /// The values, in the order of their keys.
    pub fn into_values(self) -> (r: Vec<V>)
        ensures
            r@ == self.values(),
    {
        let ghost all = self.values();
        let mut rest = self.entries;
        let mut out: Vec<V> = Vec::new();
        while rest.len() > 0
            invariant
                all.len() == out@.len() + rest@.len(),
                out@ == all.subrange(0, out@.len() as int),
                rest@.map_values(|e: (K, V)| e.1) == all.subrange(out@.len() as int, all.len() as int),
            decreases rest.len(),
        {
            let ghost before = rest@;
            let (_, v) = rest.remove(0);
            assert(before.map_values(|e: (K, V)| e.1)[0] == v);
            out.push(v);
            assert(rest@.map_values(|e: (K, V)| e.1) =~= before.map_values(|e: (K, V)| e.1).drop_first());
            assert(out@ =~= all.subrange(0, out@.len() as int));
        }
        out
    }

    /// Removes `k` and returns its value, if it was a key.
    pub fn remove(&mut self, k: &K) -> (r: Option<V>)
        requires
            old(self).wf(),
        ensures
            final(self).wf(),
            final(self)@ == old(self)@.remove(k@),
            match r {
                Some(prev) => old(self)@.contains_key(k@) && prev == old(self)@[k@],
                None => !old(self)@.contains_key(k@),
            },
    {
        let ghost old_map = *self;
        match self.search(k) {
            Ok(i) => {
                proof {
                    old_map.lemma_entry(i as int);
                }
                let (_, prev) = self.entries.remove(i);
                assert(self.keys() =~= old_map.keys().remove(i as int));
                assert(self.values() =~= old_map.values().remove(i as int));
                assert(self.wf()) by {
                    assert forall|a: int, b: int|
                        0 <= a < b < self.keys().len() implies K::key_lt(
                        #[trigger] self.keys()[a],
                        #[trigger] self.keys()[b],
                    ) by {
                        if b < i {
                            assert(K::key_lt(old_map.keys()[a], old_map.keys()[b]));
                        } else if a < i {
                            assert(K::key_lt(old_map.keys()[a], old_map.keys()[b + 1]));
                        } else {
                            assert(K::key_lt(old_map.keys()[a + 1], old_map.keys()[b + 1]));
                        }
                    }
                }
                proof {
                    assert forall|x: K::V| #[trigger] self@.contains_key(x) == old_map@.remove(
                        k@,
                    ).contains_key(x) by {
                        if self.keys().contains(x) {
                            let j = choose|j: int| 0 <= j < self.keys().len() && self.keys()[j] == x;
                            if j < i {
                                assert(old_map.keys()[j] == x);
                                old_map.lemma_entry(j);
                            } else {
                                assert(old_map.keys()[j + 1] == x);
                                old_map.lemma_entry(j + 1);
                            }
                        }
                        if old_map.keys().contains(x) && x != k@ {
                            let j = choose|j: int|
                                0 <= j < old_map.keys().len() && old_map.keys()[j] == x;
                            if j < i {
                                assert(self.keys()[j] == x);
                            } else {
                                assert(self.keys()[j - 1] == x);
                            }
                        }
                    }
                    assert forall|x: K::V| #[trigger] self@.contains_key(x) implies self@[x]
                        == old_map@.remove(k@)[x] by {
                        let j = self.index_of_key(x);
                        self.lemma_entry(j);
                        if j < i {
                            old_map.lemma_entry(j);
                        } else {
                            old_map.lemma_entry(j + 1);
                        }
                    }
                    assert(self@ =~= old_map@.remove(k@));
                }
                Some(prev)
            },
            Err(_) => {
                assert(self@ =~= old_map@.remove(k@));
                None
            },
        }
    }
}

/// A set whose elements are kept sorted, each once.
pub struct SortedSet<K> {
    map: SortedMap<K, ()>,
}

impl<K: SortKey> SortedSet<K> {
    /// The elements, in ascending order.
    pub closed spec fn elements(&self) -> Seq<K::V> {
        self.map.keys()
    }

    /// The set's well-formedness.
    pub closed spec fn wf(&self) -> bool {
        self.map.wf()
    }

    /// The set of elements.
    pub closed spec fn view(&self) -> Set<K::V> {
        self.map@.dom()
    }

    /// The elements are exactly the set's members, in strictly ascending
    /// order.
    pub proof fn lemma_elements(&self)
        requires
            self.wf(),
        ensures
            forall|k: K::V| #[trigger] self@.contains(k) <==> self.elements().contains(k),
            forall|i: int, j: int|
                0 <= i < j < self.elements().len() ==> K::key_lt(
                    #[trigger] self.elements()[i],
                    #[trigger] self.elements()[j],
                ),
    {
        self.map.lemma_dom();
    }

    /// An empty set.
    pub fn new() -> (r: Self)
        ensures
            r.wf(),
            r@ == Set::<K::V>::empty(),
            r.elements() == Seq::<K::V>::empty(),
    {
        let r = SortedSet { map: SortedMap::new() };
        assert(r@ =~= Set::<K::V>::empty());
        r
    }

    /// The number of elements.
    pub fn len(&self) -> (r: usize)
        ensures
            r == self.elements().len(),
    {
        self.map.len()
    }

    /// The element at position `i`.
    pub fn element_at(&self, i: usize) -> (r: &K)
        requires
            i < self.elements().len(),
        ensures
            r@ == self.elements()[i as int],
    {
        self.map.key_at(i)
    }

    /// Whether `k` is an element.
    pub fn contains(&self, k: &K) -> (r: bool)
        requires
            self.wf(),
        ensures
            r == self@.contains(k@),
    {
        self.map.contains_key(k)
    }

    /// Adds `k`; returns whether it was new.
    pub fn insert(&mut self, k: K) -> (r: bool)
        requires
            old(self).wf(),
        ensures
            final(self).wf(),
            final(self)@ == old(self)@.insert(k@),
            r == !old(self)@.contains(k@),
    {
        let prev = self.map.insert(k, ());
        assert(self@ =~= old(self)@.insert(k@));
        prev.is_none()
    }

    /// Removes `k`; returns whether it was there.
    pub fn remove(&mut self, k: &K) -> (r: bool)
        requires
            old(self).wf(),
        ensures
            final(self).wf(),
            final(self)@ == old(self)@.remove(k@),
            r == old(self)@.contains(k@),
    {
        let prev = self.map.remove(k);
        assert(self@ =~= old(self)@.remove(k@));
        prev.is_some()
    }

    /// A copy of the set.
    pub fn duplicate(&self) -> (r: Self)
        requires
            self.wf(),
        ensures
            r.wf(),
            r@ == self@,
            r.elements() == self.elements(),
    {
        let mut r = SortedSet::new();
        let n = self.len();
        let mut i: usize = 0;
        proof {
            self.lemma_elements();
        }
        while i < n
            invariant
                self.wf(),
                r.wf(),
                n == self.elements().len(),
                i <= n,
                r.elements() == self.elements().subrange(0, i as int),
                forall|k: K::V| #[trigger] self@.contains(k) <==> self.elements().contains(k),
                forall|a: int, b: int|
                    0 <= a < b < self.elements().len() ==> K::key_lt(
                        #[trigger] self.elements()[a],
                        #[trigger] self.elements()[b],
                    ),
            decreases n - i,
        {
            let k = self.element_at(i).key_clone();
            proof {
                r.lemma_elements();
                K::lemma_key_order();
            }
            let ghost before = r;
            r.map.insert_last(k);
            assert(r.elements() =~= self.elements().subrange(0, i + 1));
            i = i + 1;
        }
        proof {
            r.lemma_elements();
        }
        assert(self.elements().subrange(0, n as int) =~= self.elements());
        assert(r@ =~= self@);
        r
    }
}

impl<K: SortKey> SortedMap<K, ()> {
    /// Adds a key larger than every key so far.
    fn insert_last(&mut self, k: K)
        requires
            old(self).wf(),
            forall|i: int|
                0 <= i < old(self).keys().len() ==> K::key_lt(#[trigger] old(self).keys()[i], k@),
        ensures
            final(self).wf(),
            final(self).keys() == old(self).keys().push(k@),
    {
        self.entries.push((k, ()));
        assert(self.keys() =~= old(self).keys().push(k@));
    }
}

/// Of the pairs in `entries` with the key `k`, there is a last one.
pub proof fn lemma_last_with_key<K: View, V>(entries: Seq<(K, V)>, k: K::V)
    requires
        exists|i: int| 0 <= i < entries.len() && entries[i].0@ == k,
    ensures
        exists|i: int|
            0 <= i < entries.len() && entries[i].0@ == k && (forall|j: int|
                i < j < entries.len() ==> entries[j].0@ != k),
    decreases entries.len(),
{
    let n = entries.len();
    if entries[n - 1].0@ == k {
        assert(entries[n - 1].0@ == k);
    } else {
        let front = entries.drop_last();
        let w = choose|i: int| 0 <= i < entries.len() && entries[i].0@ == k;
        assert(front[w].0@ == k);
        lemma_last_with_key(front, k);
        let i = choose|i: int|
            0 <= i < front.len() && front[i].0@ == k && (forall|j: int|
                i < j < front.len() ==> front[j].0@ != k);
        assert(entries[i].0@ == k);
        assert forall|j: int| i < j < n implies entries[j].0@ != k by {
            if j < n - 1 {
                assert(front[j].0@ != k);
            }
        }
    }
}

} // verus!
