//! A map keyed by strings, kept as a list of entries in which no key
//! occurs twice. Verus's specification of std's `HashMap` gives nothing to
//! reason with for `String` keys, so the maps of the job queue and of the
//! session store are kept here, with the same meaning: a key has at most
//! one value, and the order of the entries means nothing.
use vstd::prelude::*;

verus! {

/// Entries from string keys to values; each key occurs at most once.
pub struct StrMap<T> {
    entries: Vec<(String, T)>,
}

impl<T> View for StrMap<T> {
    type V = Map<Seq<char>, T>;

    /// The entries as a map from keys (seen as characters) to values.
    closed spec fn view(&self) -> Map<Seq<char>, T> {
        Map::new(
            |k: Seq<char>| exists|i: int| 0 <= i < self.entries@.len() && self.entries@[i].0@ == k,
            |k: Seq<char>| self.entries@[self.index_of(k)].1,
        )
    }
}

impl<T> StrMap<T> {
    /// No key occurs twice among the entries.
    pub closed spec fn wf(&self) -> bool {
        forall|i: int, j: int|
            0 <= i < self.entries@.len() && 0 <= j < self.entries@.len() && i != j
                ==> #[trigger] self.entries@[i].0@ != #[trigger] self.entries@[j].0@
    }

    /// The position of the entry for a key.
    pub closed spec fn index_of(&self, k: Seq<char>) -> int {
        choose|i: int| 0 <= i < self.entries@.len() && self.entries@[i].0@ == k
    }

    proof fn lemma_entry(&self, i: int)
        requires
            self.wf(),
            0 <= i < self.entries@.len(),
        ensures
            self@.dom().contains(self.entries@[i].0@),
            self@[self.entries@[i].0@] == self.entries@[i].1,
    {
        let k = self.entries@[i].0@;
        assert(exists|j: int| 0 <= j < self.entries@.len() && self.entries@[j].0@ == k);
        let j = self.index_of(k);
        assert(self.entries@[j].0@ == k);
        assert(i == j);
    }

    /// An empty map.
    pub fn new() -> (m: Self)
        ensures
            m.wf(),
            m@ == Map::<Seq<char>, T>::empty(),
    {
        let m = StrMap { entries: Vec::new() };
        assert(m@ =~= Map::<Seq<char>, T>::empty());
        m
    }

    /// The position of the entry for `key`, if there is one.
    fn find(&self, key: &String) -> (r: Option<usize>)
        requires
            self.wf(),
        ensures
            match r {
                Some(i) => i < self.entries@.len() && self.entries@[i as int].0@ == key@,
                None => !self@.dom().contains(key@),
            },
    {
        let mut i: usize = 0;
        while i < self.entries.len()
            invariant
                i <= self.entries@.len(),
                forall|j: int| 0 <= j < i ==> self.entries@[j].0@ != key@,
            decreases self.entries@.len() - i,
        {
            if self.entries[i].0 == *key {
                return Some(i);
            }
            i = i + 1;
        }
        None
    }

    /// Whether `key` has an entry.
    pub fn contains_key(&self, key: &String) -> (b: bool)
        requires
            self.wf(),
        ensures
            b == self@.dom().contains(key@),
    {
        match self.find(key) {
            Some(i) => {
                proof {
                    self.lemma_entry(i as int);
                }
                true
            },
            None => false,
        }
    }

    /// The value stored under `key`, if there is one.
    pub fn get(&self, key: &String) -> (r: Option<&T>)
        requires
            self.wf(),
        ensures
            match r {
                Some(v) => self@.dom().contains(key@) && *v == self@[key@],
                None => !self@.dom().contains(key@),
            },
    {
        match self.find(key) {
            Some(i) => {
                proof {
                    self.lemma_entry(i as int);
                }
                Some(&self.entries[i].1)
            },
            None => None,
        }
    }

    /// Takes the entry for `key` out of the map and hands back its value.
    pub fn remove(&mut self, key: &String) -> (r: Option<T>)
        requires
            old(self).wf(),
        ensures
            final(self).wf(),
            final(self)@ == old(self)@.remove(key@),
            match r {
                Some(v) => old(self)@.dom().contains(key@) && v == old(self)@[key@],
                None => !old(self)@.dom().contains(key@),
            },
    {
        match self.find(key) {
            Some(i) => {
                proof {
                    self.lemma_entry(i as int);
                }
                let ghost old_self = *self;
                let entry = self.entries.remove(i);
                proof {
                    assert(self.entries@ == old_self.entries@.remove(i as int));
                    assert forall|a: int, b: int|
                        0 <= a < self.entries@.len() && 0 <= b < self.entries@.len() && a != b
                        implies #[trigger] self.entries@[a].0@ != #[trigger] self.entries@[b].0@ by {
                        let a0 = if a < i { a } else { a + 1 };
                        let b0 = if b < i { b } else { b + 1 };
                        assert(self.entries@[a] == old_self.entries@[a0]);
                        assert(self.entries@[b] == old_self.entries@[b0]);
                    }
                    assert forall|k: Seq<char>|
                        #[trigger] self@.dom().contains(k) <==> old_self@.remove(key@).dom().contains(k) by {
                        if self@.dom().contains(k) {
                            let j = choose|j: int| 0 <= j < self.entries@.len() && self.entries@[j].0@ == k;
                            let j0 = if j < i { j } else { j + 1 };
                            assert(old_self.entries@[j0] == self.entries@[j]);
                            assert(j0 != i);
                            old_self.lemma_entry(j0);
                        }
                        if old_self@.remove(key@).dom().contains(k) {
                            let j0 = choose|j: int| 0 <= j < old_self.entries@.len() && old_self.entries@[j].0@ == k;
                            assert(j0 != i);
                            let j = if j0 < i { j0 } else { j0 - 1 };
                            assert(self.entries@[j] == old_self.entries@[j0]);
                        }
                    }
                    assert forall|k: Seq<char>| #[trigger] self@.dom().contains(k) implies
                        self@[k] == old_self@.remove(key@)[k] by {
                        let j = choose|j: int| 0 <= j < self.entries@.len() && self.entries@[j].0@ == k;
                        let j0 = if j < i { j } else { j + 1 };
                        assert(old_self.entries@[j0] == self.entries@[j]);
                        self.lemma_entry(j);
                        old_self.lemma_entry(j0);
                    }
                    assert(self@ =~= old_self@.remove(key@));
                }
                Some(entry.1)
            },
            None => {
                assert(self@ =~= self@.remove(key@));
                None
            },
        }
    }

    /// Stores `value` under `key`, in place of any value stored there.
    pub fn insert(&mut self, key: String, value: T)
        requires
            old(self).wf(),
        ensures
            final(self).wf(),
            final(self)@ == old(self)@.insert(key@, value),
    {
        let _ = self.remove(&key);
        let ghost mid = *self;
        let ghost k = key@;
        self.entries.push((key, value));
        proof {
            assert(!mid@.dom().contains(k));
            assert forall|a: int, b: int|
                0 <= a < self.entries@.len() && 0 <= b < self.entries@.len() && a != b
                implies #[trigger] self.entries@[a].0@ != #[trigger] self.entries@[b].0@ by {
                let n = mid.entries@.len() as int;
                if a == n {
                    assert(self.entries@[b] == mid.entries@[b]);
                } else if b == n {
                    assert(self.entries@[a] == mid.entries@[a]);
                } else {
                    assert(self.entries@[a] == mid.entries@[a]);
                    assert(self.entries@[b] == mid.entries@[b]);
                }
            }
            let n = mid.entries@.len() as int;
            self.lemma_entry(n);
            assert forall|k2: Seq<char>|
                #[trigger] self@.dom().contains(k2) <==> mid@.insert(k, value).dom().contains(k2) by {
                if self@.dom().contains(k2) && k2 != k {
                    let j = choose|j: int| 0 <= j < self.entries@.len() && self.entries@[j].0@ == k2;
                    assert(j != n);
                    assert(mid.entries@[j] == self.entries@[j]);
                }
                if mid@.dom().contains(k2) && k2 != k {
                    let j = choose|j: int| 0 <= j < mid.entries@.len() && mid.entries@[j].0@ == k2;
                    assert(self.entries@[j] == mid.entries@[j]);
                }
            }
            assert forall|k2: Seq<char>| #[trigger] self@.dom().contains(k2) implies
                self@[k2] == mid@.insert(k, value)[k2] by {
                if k2 != k {
                    let j = choose|j: int| 0 <= j < self.entries@.len() && self.entries@[j].0@ == k2;
                    assert(j != n);
                    assert(mid.entries@[j] == self.entries@[j]);
                    self.lemma_entry(j);
                    mid.lemma_entry(j);
                }
            }
            assert(self@ =~= mid@.insert(k, value));
        }
    }

    proof fn lemma_len(&self)
        requires
            self.wf(),
        ensures
            self@.dom().finite(),
            self@.len() == self.entries@.len(),
        decreases self.entries@.len(),
    {
        let keys = self.entries@.map_values(|e: (String, T)| e.0@);
        assert forall|i: int, j: int| 0 <= i < keys.len() && 0 <= j < keys.len() && i != j implies keys[i] != keys[j] by {
            assert(self.entries@[i].0@ != self.entries@[j].0@);
        }
        assert(keys.no_duplicates());
        keys.unique_seq_to_set();
        assert forall|k: Seq<char>| #[trigger] self@.dom().contains(k) <==> keys.to_set().contains(k) by {
            if self@.dom().contains(k) {
                let i = choose|i: int| 0 <= i < self.entries@.len() && self.entries@[i].0@ == k;
                assert(keys[i] == k);
            }
            if keys.to_set().contains(k) {
                let i = choose|i: int| 0 <= i < keys.len() && keys[i] == k;
                assert(self.entries@[i].0@ == k);
            }
        }
        assert(self@.dom() =~= keys.to_set());
    }

    /// The keys, each once, in the order of the entries.
    pub fn keys(&self) -> (ks: Vec<String>)
        requires
            self.wf(),
        ensures
            ks@.len() == self@.len(),
            forall|i: int, j: int|
                0 <= i < ks@.len() && 0 <= j < ks@.len() && i != j ==> #[trigger] ks@[i]@ != #[trigger] ks@[j]@,
            forall|i: int| 0 <= i < ks@.len() ==> self@.dom().contains(#[trigger] ks@[i]@),
            forall|k: Seq<char>| #[trigger] self@.dom().contains(k) ==> exists|i: int| 0 <= i < ks@.len() && ks@[i]@ == k,
    {
        proof {
            self.lemma_len();
        }
        let mut ks: Vec<String> = Vec::new();
        let mut i: usize = 0;
        while i < self.entries.len()
            invariant
                self.wf(),
                i <= self.entries@.len(),
                ks@.len() == i,
                forall|j: int| 0 <= j < i ==> #[trigger] ks@[j]@ == self.entries@[j].0@,
            decreases self.entries@.len() - i,
        {
            ks.push(self.entries[i].0.clone());
            i = i + 1;
        }
        proof {
            assert forall|a: int| 0 <= a < ks@.len() implies self@.dom().contains(#[trigger] ks@[a]@) by {
                self.lemma_entry(a);
            }
            assert forall|k: Seq<char>| #[trigger] self@.dom().contains(k) implies exists|a: int| 0 <= a < ks@.len() && ks@[a]@ == k by {
                let a = choose|a: int| 0 <= a < self.entries@.len() && self.entries@[a].0@ == k;
                assert(ks@[a]@ == k);
            }
            assert forall|a: int, b: int|
                0 <= a < ks@.len() && 0 <= b < ks@.len() && a != b implies #[trigger] ks@[a]@ != #[trigger] ks@[b]@ by {
                assert(self.entries@[a].0@ != self.entries@[b].0@);
            }
        }
        ks
    }
}

} // verus!
