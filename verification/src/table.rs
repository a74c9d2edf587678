//! A finite map from keys to values, kept as a list of entries whose keys
//! are pairwise distinct. The contracts' persistent storage is modelled with it.

use vstd::prelude::*;

verus! {

/// A key that a [`Table`] is indexed by. Two keys are the same key when
/// their views are equal.
pub trait TableKey: View + Sized {
    fn same_key(&self, other: &Self) -> (same: bool)
        ensures
            same == (self@ == other@),
    ;

    fn copy_key(&self) -> (copy: Self)
        ensures
            copy@ == self@,
    ;
}

impl TableKey for u64 {
    fn same_key(&self, other: &Self) -> (same: bool) {
        *self == *other
    }

    fn copy_key(&self) -> (copy: Self) {
        *self
    }
}

impl TableKey for String {
    fn same_key(&self, other: &Self) -> (same: bool) {
        *self == *other
    }

    fn copy_key(&self) -> (copy: Self) {
        self.clone()
    }
}

/// No two entries of `s` share a key.
pub open spec fn distinct_keys<K: View, V>(s: Seq<(K, V)>) -> bool {
    forall|i: int, j: int|
        #![trigger s[i], s[j]]
        0 <= i < s.len() && 0 <= j < s.len() && i != j ==> s[i].0@ != s[j].0@
}

/// Some entry of `s` has key `k`.
pub open spec fn has_key<K: View, V>(s: Seq<(K, V)>, k: K::V) -> bool {
    exists|i: int| 0 <= i < s.len() && #[trigger] s[i].0@ == k
}

/// The position of an entry of `s` with key `k`.
pub open spec fn key_pos<K: View, V>(s: Seq<(K, V)>, k: K::V) -> int {
    choose|i: int| 0 <= i < s.len() && #[trigger] s[i].0@ == k
}

/// The map that a list of entries with distinct keys stands for.
pub open spec fn entries_map<K: View, V>(s: Seq<(K, V)>) -> Map<K::V, V> {
    Map::new(|k: K::V| has_key(s, k), |k: K::V| s[key_pos(s, k)].1)
}

/// Where keys are distinct, the entry at `i` is the one that `key_pos` finds.
pub proof fn lemma_key_pos_unique<K: View, V>(s: Seq<(K, V)>, i: int)
    requires
        distinct_keys(s),
        0 <= i < s.len(),
    ensures
        has_key(s, s[i].0@),
        key_pos(s, s[i].0@) == i,
        entries_map(s).contains_key(s[i].0@),
        entries_map(s)[s[i].0@] == s[i].1,
{
    let k = s[i].0@;
    assert(s[i].0@ == k);
    let p = key_pos(s, k);
    assert(0 <= p < s.len() && s[p].0@ == k);
    if p != i {
        assert(s[p].0@ != s[i].0@);
    }
}

/// A finite map kept as a list of entries whose keys are pairwise distinct.
pub struct Table<K: TableKey, V> {
    entries: Vec<(K, V)>,
}

impl<K: TableKey, V> View for Table<K, V> {
    type V = Map<<K as View>::V, V>;

    closed spec fn view(&self) -> Map<<K as View>::V, V> {
        entries_map(self.entries@)
    }
}

impl<K: TableKey, V> Table<K, V> {
    #[verifier::type_invariant]
    closed spec fn keys_distinct(&self) -> bool {
        distinct_keys(self.entries@)
    }

    pub fn new() -> (t: Self)
        ensures
            t@ == Map::<<K as View>::V, V>::empty(),
    {
        let t = Table { entries: Vec::new() };
        assert(t@ =~= Map::<<K as View>::V, V>::empty());
        t
    }

    /// The position of the entry with key `k`, if there is one.
    fn find(&self, k: &K) -> (r: Option<usize>)
        ensures
            match r {
                Some(i) => i < self.entries@.len() && self.entries@[i as int].0@ == k@
                    && self@.contains_key(k@) && self@[k@] == self.entries@[i as int].1,
                None => !self@.contains_key(k@),
            },
    {
        proof {
            use_type_invariant(self);
        }
        let mut i: usize = 0;
        while i < self.entries.len()
            invariant
                i <= self.entries@.len(),
                distinct_keys(self.entries@),
                forall|j: int| 0 <= j < i ==> #[trigger] self.entries@[j].0@ != k@,
            decreases self.entries@.len() - i,
        {
            if self.entries[i].0.same_key(k) {
                proof {
                    lemma_key_pos_unique(self.entries@, i as int);
                }
                return Some(i);
            }
            i = i + 1;
        }
        None
    }

    pub fn contains_key(&self, k: &K) -> (r: bool)
        ensures
            r == self@.contains_key(k@),
    {
        self.find(k).is_some()
    }

    pub fn get(&self, k: &K) -> (r: Option<&V>)
        ensures
            match r {
                Some(v) => self@.contains_key(k@) && *v == self@[k@],
                None => !self@.contains_key(k@),
            },
    {
        match self.find(k) {
            Some(i) => Some(&self.entries[i].1),
            None => None,
        }
    }

    /// Sets the value under `k`, replacing what was there.
    pub fn insert(&mut self, k: K, v: V)
        ensures
            final(self)@ == old(self)@.insert(k@, v),
    {
        proof {
            use_type_invariant(&*self);
        }
        let ghost old_entries = self.entries@;
        match self.find(&k) {
            Some(i) => {
                let mut entries = Vec::new();
                std::mem::swap(&mut entries, &mut self.entries);
                entries.set(i, (k, v));
                proof {
                    assert(distinct_keys(entries@)) by {
                        let s = entries@;
                        assert forall|a: int, b: int|
                            0 <= a < s.len() && 0 <= b < s.len() && a != b implies s[a].0@
                            != s[b].0@ by {
                            assert(old_entries[a].0@ != old_entries[b].0@);
                        }
                    }
                }
                self.entries = entries;
                proof {
                    let s = self.entries@;
                    assert(s == old_entries.update(i as int, (k, v)));
                    lemma_key_pos_unique(s, i as int);
                    assert forall|x: <K as View>::V|
                        #![trigger entries_map(s).contains_key(x)]
                        entries_map(s).contains_key(x) == old_entries_insert_contains(
                            old_entries,
                            k@,
                            x,
                        ) by {
                        if has_key(old_entries, x) {
                            let j = choose|j: int|
                                0 <= j < old_entries.len() && #[trigger] old_entries[j].0@ == x;
                            assert(s[j].0@ == x);
                        }
                        if has_key(s, x) {
                            let j = choose|j: int| 0 <= j < s.len() && #[trigger] s[j].0@ == x;
                            assert(old_entries[j].0@ == x);
                        }
                    }
                    assert forall|x: <K as View>::V|
                        #![trigger entries_map(s)[x]]
                        entries_map(s).contains_key(x) && x != k@ implies entries_map(s)[x]
                        == entries_map(old_entries)[x] by {
                        let j = choose|j: int| 0 <= j < s.len() && #[trigger] s[j].0@ == x;
                        lemma_key_pos_unique(s, j);
                        assert(old_entries[j].0@ == x);
                        lemma_key_pos_unique(old_entries, j);
                    }
                    assert(entries_map(s) =~= entries_map(old_entries).insert(k@, v));
                }
            },
            None => {
                let mut entries = Vec::new();
                std::mem::swap(&mut entries, &mut self.entries);
                entries.push((k, v));
                proof {
                    let s = entries@;
                    let n = old_entries.len() as int;
                    assert(distinct_keys(s)) by {
                        assert forall|a: int, b: int|
                            0 <= a < s.len() && 0 <= b < s.len() && a != b implies s[a].0@
                            != s[b].0@ by {
                            if a < n && b < n {
                                assert(old_entries[a].0@ != old_entries[b].0@);
                            } else if a < n {
                                assert(old_entries[a].0@ == s[a].0@);
                            } else {
                                assert(old_entries[b].0@ == s[b].0@);
                            }
                        }
                    }
                }
                self.entries = entries;
                proof {
                    let s = self.entries@;
                    assert(s == old_entries.push((k, v)));
                    let n = old_entries.len() as int;
                    lemma_key_pos_unique(s, n);
                    assert forall|x: <K as View>::V|
                        #![trigger entries_map(s).contains_key(x)]
                        entries_map(s).contains_key(x) == old_entries_insert_contains(
                            old_entries,
                            k@,
                            x,
                        ) by {
                        if has_key(old_entries, x) {
                            let j = choose|j: int|
                                0 <= j < old_entries.len() && #[trigger] old_entries[j].0@ == x;
                            assert(s[j].0@ == x);
                        }
                        if has_key(s, x) && x != k@ {
                            let j = choose|j: int| 0 <= j < s.len() && #[trigger] s[j].0@ == x;
                            assert(j < n);
                            assert(old_entries[j].0@ == x);
                        }
                    }
                    assert forall|x: <K as View>::V|
                        #![trigger entries_map(s)[x]]
                        entries_map(s).contains_key(x) && x != k@ implies entries_map(s)[x]
                        == entries_map(old_entries)[x] by {
                        let j = choose|j: int| 0 <= j < s.len() && #[trigger] s[j].0@ == x;
                        lemma_key_pos_unique(s, j);
                        assert(j < n);
                        assert(old_entries[j].0@ == x);
                        lemma_key_pos_unique(old_entries, j);
                    }
                    assert(entries_map(s) =~= entries_map(old_entries).insert(k@, v));
                }
            },
        }
    }

    /// Removes the entry under `k` and hands back its value, if there was one.
    pub fn remove(&mut self, k: &K) -> (r: Option<V>)
        ensures
            final(self)@ == old(self)@.remove(k@),
            match r {
                Some(v) => old(self)@.contains_key(k@) && v == old(self)@[k@],
                None => !old(self)@.contains_key(k@),
            },
    {
        proof {
            use_type_invariant(&*self);
        }
        let ghost old_entries = self.entries@;
        match self.find(k) {
            Some(i) => {
                let mut entries = Vec::new();
                std::mem::swap(&mut entries, &mut self.entries);
                let (_, v) = entries.remove(i);
                proof {
                    let s = entries@;
                    let ii = i as int;
                    assert(s == old_entries.remove(ii));
                    assert forall|j: int| 0 <= j < s.len() implies #[trigger] s[j] == (if j < ii {
                        old_entries[j]
                    } else {
                        old_entries[j + 1]
                    }) by {}
                    assert(distinct_keys(s)) by {
                        assert forall|a: int, b: int|
                            0 <= a < s.len() && 0 <= b < s.len() && a != b implies s[a].0@
                            != s[b].0@ by {
                            let a2 = if a < ii {
                                a
                            } else {
                                a + 1
                            };
                            let b2 = if b < ii {
                                b
                            } else {
                                b + 1
                            };
                            assert(s[a] == old_entries[a2]);
                            assert(s[b] == old_entries[b2]);
                            assert(old_entries[a2].0@ != old_entries[b2].0@);
                        }
                    }
                    assert forall|x: <K as View>::V|
                        #![trigger entries_map(s).contains_key(x)]
                        entries_map(s).contains_key(x) == (has_key(old_entries, x) && x != k@) by {
                        if has_key(old_entries, x) && x != k@ {
                            let j = choose|j: int|
                                0 <= j < old_entries.len() && #[trigger] old_entries[j].0@ == x;
                            assert(j != ii);
                            if j < ii {
                                assert(s[j].0@ == x);
                            } else {
                                assert(s[j - 1].0@ == x);
                            }
                        }
                        if has_key(s, x) {
                            let j = choose|j: int| 0 <= j < s.len() && #[trigger] s[j].0@ == x;
                            let j2 = if j < ii {
                                j
                            } else {
                                j + 1
                            };
                            assert(old_entries[j2].0@ == x);
                            assert(j2 != ii);
                            assert(old_entries[j2].0@ != old_entries[ii].0@);
                        }
                    }
                    assert forall|x: <K as View>::V|
                        #![trigger entries_map(s)[x]]
                        entries_map(s).contains_key(x) implies entries_map(s)[x] == entries_map(
                            old_entries,
                        )[x] by {
                        let j = choose|j: int| 0 <= j < s.len() && #[trigger] s[j].0@ == x;
                        lemma_key_pos_unique(s, j);
                        let j2 = if j < ii {
                            j
                        } else {
                            j + 1
                        };
                        assert(old_entries[j2].0@ == x);
                        lemma_key_pos_unique(old_entries, j2);
                    }
                    assert(entries_map(s) =~= entries_map(old_entries).remove(k@));
                }
                self.entries = entries;
                Some(v)
            },
            None => {
                proof {
                    assert(entries_map(old_entries) =~= entries_map(old_entries).remove(k@));
                }
                None
            },
        }
    }
}

/// Whether `x` is a key of `entries` with `k` added.
pub open spec fn old_entries_insert_contains<K: View, V>(
    entries: Seq<(K, V)>,
    k: K::V,
    x: K::V,
) -> bool {
    has_key(entries, x) || x == k
}

} // verus!
