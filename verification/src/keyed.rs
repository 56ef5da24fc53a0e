use vstd::prelude::*;
use crate::types::StoreKey;

verus! {

/// The value stored under `k` in `m`, if any.
pub open spec fn map_get<K, V>(m: Map<K, V>, k: K) -> Option<V> {
    if m.dom().contains(k) {
        Some(m[k])
    } else {
        None
    }
}

/// Entry `i` of `s` is stored under `k`.
pub open spec fn key_at<K, V>(s: Seq<(K, V)>, k: K, i: int) -> bool {
    0 <= i < s.len() && s[i].0 == k
}

/// No two entries of `s` share a key.
pub open spec fn keys_distinct<K, V>(s: Seq<(K, V)>) -> bool {
    forall|i: int, j: int|
        #![trigger s[i], s[j]]
        0 <= i < s.len() && 0 <= j < s.len() && i != j ==> s[i].0 != s[j].0
}

/// The map that a sequence of entries stands for.
pub open spec fn entries_map<K, V>(s: Seq<(K, V)>) -> Map<K, V> {
    Map::new(
        |k: K| exists|i: int| key_at(s, k, i),
        |k: K| s[choose|i: int| key_at(s, k, i)].1,
    )
}

/// With distinct keys, an entry's value is what the map holds under its key.
pub proof fn lemma_entries_map_at<K, V>(s: Seq<(K, V)>, k: K, i: int)
    requires
        keys_distinct(s),
        key_at(s, k, i),
    ensures
        entries_map(s).dom().contains(k),
        entries_map(s)[k] == s[i].1,
{
    assert(exists|j: int| key_at(s, k, j));
    let j = choose|j: int| key_at(s, k, j);
    assert(key_at(s, k, j));
    assert(s[i].0 == s[j].0);
    if i != j {
        assert(s[i].0 != s[j].0);
    }
}

/// A finite map held as a vector of `(key, value)` entries with distinct keys.
#[derive(Clone, Debug)]
pub struct KeyedStore<K, V> {
    entries: Vec<(K, V)>,
}

impl<K, V> View for KeyedStore<K, V> {
    type V = Map<K, V>;

    closed spec fn view(&self) -> Map<K, V> {
        entries_map(self.entries@)
    }
}

impl<K: StoreKey, V: Copy> KeyedStore<K, V> {
    /// The entries carry pairwise distinct keys.
    pub closed spec fn wf(&self) -> bool {
        keys_distinct(self.entries@)
    }

    /// The empty store.
    pub fn new() -> (s: Self)
        ensures
            s.wf(),
            s@ == Map::<K, V>::empty(),
    {
        let s = KeyedStore { entries: Vec::new() };
        assert(s@ =~= Map::<K, V>::empty());
        s
    }

    /// The position of the entry stored under `k`.
    fn find(&self, k: &K) -> (r: Option<usize>)
        requires
            self.wf(),
        ensures
            match r {
                Some(i) => key_at(self.entries@, *k, i as int),
                None => forall|i: int| !key_at(self.entries@, *k, i),
            },
    {
        let n: usize = self.entries.len();
        let mut i: usize = 0;
        while i < n
            invariant
                n == self.entries@.len(),
                i <= n,
                forall|j: int| 0 <= j < i ==> !key_at(self.entries@, *k, j),
            decreases n - i,
        {
            if self.entries[i].0.same_key(k) {
                return Some(i);
            }
            i = i + 1;
        }
        None
    }

    /// The value stored under `k`, if any.
    pub fn get(&self, k: &K) -> (r: Option<V>)
        requires
            self.wf(),
        ensures
            r == map_get(self@, *k),
    {
        match self.find(k) {
            Some(i) => {
                proof {
                    lemma_entries_map_at(self.entries@, *k, i as int);
                }
                Some(self.entries[i].1)
            },
            None => None,
        }
    }

    /// Whether some value is stored under `k`.
    pub fn contains_key(&self, k: &K) -> (r: bool)
        requires
            self.wf(),
        ensures
            r == self@.dom().contains(*k),
    {
        match self.find(k) {
            Some(i) => {
                proof {
                    lemma_entries_map_at(self.entries@, *k, i as int);
                }
                true
            },
            None => false,
        }
    }

    /// Stores `v` under `k`, replacing what was stored there.
    pub fn insert(&mut self, k: K, v: V)
        requires
            old(self).wf(),
        ensures
            final(self).wf(),
            final(self)@ == old(self)@.insert(k, v),
    {
        let ghost s0 = self.entries@;
        match self.find(&k) {
            Some(i) => {
                self.entries[i] = (k, v);
                let ghost s1 = self.entries@;
                assert(s1 == s0.update(i as int, (k, v)));
                assert(keys_distinct(s1));
                assert forall|k2: K| #[trigger] entries_map(s1).dom().contains(k2) == old(self)@.insert(k, v).dom().contains(k2) by {
                    if k2 != k {
                        if exists|j: int| key_at(s1, k2, j) {
                            let j = choose|j: int| key_at(s1, k2, j);
                            assert(key_at(s0, k2, j));
                        }
                        if exists|j: int| key_at(s0, k2, j) {
                            let j = choose|j: int| key_at(s0, k2, j);
                            assert(key_at(s1, k2, j));
                        }
                    } else {
                        assert(key_at(s1, k2, i as int));
                    }
                }
                assert forall|k2: K| #[trigger] entries_map(s1).dom().contains(k2) implies entries_map(s1)[k2] == old(self)@.insert(k, v)[k2] by {
                    let j = choose|j: int| key_at(s1, k2, j);
                    lemma_entries_map_at(s1, k2, j);
                    if k2 != k {
                        assert(key_at(s0, k2, j));
                        lemma_entries_map_at(s0, k2, j);
                    }
                }
                assert(entries_map(s1) =~= old(self)@.insert(k, v));
            },
            None => {
                self.entries.push((k, v));
                let ghost s1 = self.entries@;
                assert(s1 == s0.push((k, v)));
                assert(keys_distinct(s1)) by {
                    assert forall|a: int, b: int|
                        0 <= a < s1.len() && 0 <= b < s1.len() && a != b implies #[trigger] s1[a].0 != #[trigger] s1[b].0 by {
                        if a == s0.len() {
                            assert(!key_at(s0, k, b));
                        } else if b == s0.len() {
                            assert(!key_at(s0, k, a));
                        } else {
                            assert(s1[a] == s0[a] && s1[b] == s0[b]);
                        }
                    }
                }
                assert forall|k2: K| #[trigger] entries_map(s1).dom().contains(k2) == old(self)@.insert(k, v).dom().contains(k2) by {
                    if k2 != k {
                        if exists|j: int| key_at(s1, k2, j) {
                            let j = choose|j: int| key_at(s1, k2, j);
                            assert(key_at(s0, k2, j));
                        }
                        if exists|j: int| key_at(s0, k2, j) {
                            let j = choose|j: int| key_at(s0, k2, j);
                            assert(key_at(s1, k2, j));
                        }
                    } else {
                        assert(key_at(s1, k2, s0.len() as int));
                    }
                }
                assert forall|k2: K| #[trigger] entries_map(s1).dom().contains(k2) implies entries_map(s1)[k2] == old(self)@.insert(k, v)[k2] by {
                    let j = choose|j: int| key_at(s1, k2, j);
                    lemma_entries_map_at(s1, k2, j);
                    if k2 != k {
                        assert(key_at(s0, k2, j));
                        lemma_entries_map_at(s0, k2, j);
                    } else {
                        lemma_entries_map_at(s1, k2, s0.len() as int);
                    }
                }
                assert(entries_map(s1) =~= old(self)@.insert(k, v));
            },
        }
    }

    /// Removes whatever is stored under `k`.
    pub fn remove(&mut self, k: &K)
        requires
            old(self).wf(),
        ensures
            final(self).wf(),
            final(self)@ == old(self)@.remove(*k),
    {
        let ghost s0 = self.entries@;
        match self.find(k) {
            Some(i) => {
                let _ = self.entries.remove(i);
                let ghost s1 = self.entries@;
                assert(s1 == s0.remove(i as int));
                assert(forall|j: int| 0 <= j < i ==> s1[j] == s0[j]);
                assert(forall|j: int| i <= j < s1.len() ==> s1[j] == s0[j + 1]);
                assert(keys_distinct(s1)) by {
                    assert forall|a: int, b: int|
                        0 <= a < s1.len() && 0 <= b < s1.len() && a != b implies #[trigger] s1[a].0 != #[trigger] s1[b].0 by {
                        let a0 = if a < i { a } else { a + 1 };
                        let b0 = if b < i { b } else { b + 1 };
                        assert(s1[a] == s0[a0]);
                        assert(s1[b] == s0[b0]);
                        assert(s0[a0].0 != s0[b0].0);
                    }
                }
                assert forall|k2: K| #[trigger] entries_map(s1).dom().contains(k2) == old(self)@.remove(*k).dom().contains(k2) by {
                    if exists|j: int| key_at(s1, k2, j) {
                        let j = choose|j: int| key_at(s1, k2, j);
                        let j0 = if j < i { j } else { j + 1 };
                        assert(key_at(s0, k2, j0));
                        assert(j0 != i);
                        assert(s0[j0].0 != s0[i as int].0);
                    }
                    if k2 != *k && exists|j: int| key_at(s0, k2, j) {
                        let j = choose|j: int| key_at(s0, k2, j);
                        assert(j != i);
                        let j1 = if j < i { j } else { j - 1 };
                        assert(key_at(s1, k2, j1));
                    }
                }
                assert forall|k2: K| #[trigger] entries_map(s1).dom().contains(k2) implies entries_map(s1)[k2] == old(self)@.remove(*k)[k2] by {
                    let j = choose|j: int| key_at(s1, k2, j);
                    lemma_entries_map_at(s1, k2, j);
                    let j0 = if j < i { j } else { j + 1 };
                    assert(key_at(s0, k2, j0));
                    lemma_entries_map_at(s0, k2, j0);
                }
                assert(entries_map(s1) =~= old(self)@.remove(*k));
            },
            None => {
                assert(!old(self)@.dom().contains(*k));
                assert(old(self)@.remove(*k) =~= old(self)@);
            },
        }
    }
}

} // verus!
