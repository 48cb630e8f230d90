//! A small keyed table with unique text keys, used for inventories, stock,
//! relationships and per-era weights.

use vstd::prelude::*;
use crate::text::same;

verus! {

/// Entries keyed by text, each key present at most once, kept in insertion order.
#[derive(Debug, PartialEq, Eq)]
pub struct Tally<T> {
    entries: Vec<(String, T)>,
}

/// `true` when no two entries share a key.
pub open spec fn unique_keys<T>(s: Seq<(String, T)>) -> bool {
    forall|i: int, j: int|
        0 <= i < s.len() && 0 <= j < s.len() && i != j ==> #[trigger] s[i].0@ != #[trigger] s[j].0@
}

impl<T> Tally<T> {
    #[verifier::type_invariant]
    spec fn wf(self) -> bool {
        unique_keys(self.entries@)
    }

    /// The entries in table order.
    pub closed spec fn rows(self) -> Seq<(String, T)> {
        self.entries@
    }
}

impl<T: Copy> Tally<T> {

    /// Whether `k` is a key of the table.
    pub open spec fn has(self, k: Seq<char>) -> bool {
        exists|i: int| 0 <= i < self.rows().len() && #[trigger] self.rows()[i].0@ == k
    }

    /// The value stored under `k` (meaningful when `has(k)`).
    pub open spec fn value(self, k: Seq<char>) -> T {
        self.rows()[choose|i: int| 0 <= i < self.rows().len() && #[trigger] self.rows()[i].0@ == k].1
    }

    /// The table as a map from key text to value.
    pub open spec fn map(self) -> Map<Seq<char>, T> {
        Map::new(|k: Seq<char>| self.has(k), |k: Seq<char>| self.value(k))
    }

    /// An empty table.
    pub fn new() -> (r: Self)
        ensures
            r.rows().len() == 0,
            r.map() == Map::<Seq<char>, T>::empty(),
    {
        let r = Tally { entries: Vec::new() };
        assert(r.map() =~= Map::<Seq<char>, T>::empty());
        r
    }

    /// Number of entries.
    pub fn len(&self) -> (r: usize)
        ensures
            r == self.rows().len(),
            unique_keys(self.rows()),
    {
        proof {
            use_type_invariant(self);
        }
        self.entries.len()
    }

    /// Replaces the value of entry `i`, keeping its key and position.
    pub fn set_at(&mut self, i: usize, v: T)
        requires
            i < old(self).rows().len(),
        ensures
            final(self).rows() == old(self).rows().update(i as int, (old(self).rows()[i as int].0, v)),
            final(self).map() == old(self).map().insert(old(self).rows()[i as int].0@, v),
            unique_keys(final(self).rows()),
    {
        proof {
            use_type_invariant(&*self);
        }
        let ghost before = *self;
        let key = self.entries[i].0.clone();
        let mut entries: Vec<(String, T)> = Vec::new();
        std::mem::swap(&mut entries, &mut self.entries);
        entries.set(i, (key, v));
        self.entries = entries;
        proof {
            let after = *self;
            let k = before.rows()[i as int].0@;
            assert forall|x: Seq<char>| #[trigger] after.has(x) == before.has(x) by {
                if before.has(x) {
                    let j = choose|j: int| 0 <= j < before.rows().len() && #[trigger] before.rows()[j].0@ == x;
                    assert(after.rows()[j].0@ == x);
                }
                if after.has(x) {
                    let j = choose|j: int| 0 <= j < after.rows().len() && #[trigger] after.rows()[j].0@ == x;
                    assert(before.rows()[j].0@ == x);
                }
            }
            assert forall|x: Seq<char>| #[trigger] after.has(x) implies after.value(x) == (if x == k { v } else { before.value(x) }) by {
                let j = choose|j: int| 0 <= j < after.rows().len() && #[trigger] after.rows()[j].0@ == x;
                after.lemma_value_at(j);
                if x != k {
                    before.lemma_value_at(j);
                }
            }
            assert(before.has(k));
            assert(after.map() =~= before.map().insert(k, v));
        }
    }

    /// The key of entry `i`.
    pub fn key_at(&self, i: usize) -> (r: &String)
        requires
            i < self.rows().len(),
        ensures
            *r == self.rows()[i as int].0,
    {
        &self.entries[i].0
    }

    /// The value of entry `i`.
    pub fn value_at(&self, i: usize) -> (r: T)
        requires
            i < self.rows().len(),
        ensures
            r == self.rows()[i as int].1,
    {
        self.entries[i].1
    }

    /// Position of key `k`, if present.
    pub fn find(&self, k: &str) -> (r: Option<usize>)
        ensures
            r matches Some(i) ==> i < self.rows().len() && self.rows()[i as int].0@ == k@,
            r is Some <==> self.has(k@),
    {
        let mut i: usize = 0;
        while i < self.entries.len()
            invariant
                i <= self.entries@.len(),
                forall|j: int| 0 <= j < i ==> self.entries@[j].0@ != k@,
            decreases self.entries@.len() - i,
        {
            if same(self.entries[i].0.as_str(), k) {
                return Some(i);
            }
            i = i + 1;
        }
        None
    }

    /// The value under `k`, if present.
    pub fn get(&self, k: &str) -> (r: Option<T>)
        ensures
            r is Some <==> self.map().dom().contains(k@),
            r matches Some(v) ==> v == self.map()[k@],
    {
        proof {
            use_type_invariant(self);
        }
        match self.find(k) {
            Some(i) => {
                proof {
                    self.lemma_value_at(i as int);
                }
                Some(self.entries[i].1)
            },
            None => None,
        }
    }

    /// The value stored at a position is the value of its key.
    pub proof fn lemma_value_at(self, i: int)
        requires
            unique_keys(self.rows()),
            0 <= i < self.rows().len(),
        ensures
            self.has(self.rows()[i].0@),
            self.value(self.rows()[i].0@) == self.rows()[i].1,
            self.map().dom().contains(self.rows()[i].0@),
            self.map()[self.rows()[i].0@] == self.rows()[i].1,
    {
        let k = self.rows()[i].0@;
        assert(self.has(k));
        let j = choose|j: int| 0 <= j < self.rows().len() && #[trigger] self.rows()[j].0@ == k;
        assert(i == j);
    }

    /// Stores `v` under `k`, replacing any earlier value.
    pub fn set(&mut self, k: &str, v: T)
        ensures
            final(self).map() == old(self).map().insert(k@, v),
            old(self).has(k@) ==> final(self).rows().len() == old(self).rows().len(),
            !old(self).has(k@) ==> final(self).rows() == old(self).rows().push((final(self).rows().last().0, v))
                && final(self).rows().last().0@ == k@,
    {
        proof {
            use_type_invariant(&*self);
        }
        let ghost before = *self;
        match self.find(k) {
            Some(i) => {
                let key = self.entries[i].0.clone();
                let mut entries: Vec<(String, T)> = Vec::new();
                std::mem::swap(&mut entries, &mut self.entries);
                entries.set(i, (key, v));
                self.entries = entries;
                proof {
                    let after = *self;
                    assert forall|x: Seq<char>| #[trigger] after.has(x) == before.has(x) by {
                        if before.has(x) {
                            let j = choose|j: int| 0 <= j < before.rows().len() && #[trigger] before.rows()[j].0@ == x;
                            assert(after.rows()[j].0@ == x);
                        }
                        if after.has(x) {
                            let j = choose|j: int| 0 <= j < after.rows().len() && #[trigger] after.rows()[j].0@ == x;
                            assert(before.rows()[j].0@ == x);
                        }
                    }
                    assert forall|x: Seq<char>| #[trigger] after.has(x) implies after.value(x) == (if x == k@ { v } else { before.value(x) }) by {
                        let j = choose|j: int| 0 <= j < after.rows().len() && #[trigger] after.rows()[j].0@ == x;
                        after.lemma_value_at(j);
                        if x != k@ {
                            before.lemma_value_at(j);
                        }
                    }
                    assert(after.map() =~= before.map().insert(k@, v));
                }
            },
            None => {
                let key = k.to_owned();
                let mut entries: Vec<(String, T)> = Vec::new();
                std::mem::swap(&mut entries, &mut self.entries);
                entries.push((key, v));
                proof {
                    assert forall|a: int, b: int|
                        0 <= a < entries@.len() && 0 <= b < entries@.len() && a != b
                        implies #[trigger] entries@[a].0@ != #[trigger] entries@[b].0@ by {
                        if a < before.rows().len() && b < before.rows().len() {
                        } else if a < before.rows().len() {
                            assert(before.rows()[a].0@ != k@);
                        } else {
                            assert(before.rows()[b].0@ != k@);
                        }
                    }
                }
                self.entries = entries;
                proof {
                    let after = *self;
                    let n = before.rows().len() as int;
                    assert(after.rows()[n].0@ == k@);
                    assert forall|x: Seq<char>| #[trigger] after.has(x) == (before.has(x) || x == k@) by {
                        if before.has(x) {
                            let j = choose|j: int| 0 <= j < before.rows().len() && #[trigger] before.rows()[j].0@ == x;
                            assert(after.rows()[j].0@ == x);
                        }
                        if after.has(x) && x != k@ {
                            let j = choose|j: int| 0 <= j < after.rows().len() && #[trigger] after.rows()[j].0@ == x;
                            assert(before.rows()[j].0@ == x);
                        }
                    }
                    assert forall|x: Seq<char>| #[trigger] after.has(x) implies after.value(x) == (if x == k@ { v } else { before.value(x) }) by {
                        let j = choose|j: int| 0 <= j < after.rows().len() && #[trigger] after.rows()[j].0@ == x;
                        after.lemma_value_at(j);
                        if x != k@ {
                            before.lemma_value_at(j);
                        }
                    }
                    assert(after.map() =~= before.map().insert(k@, v));
                    assert(after.rows() =~= before.rows().push((after.rows().last().0, v)));
                }
            },
        }
    }

    /// A copy with the same entries.
    pub fn duplicate(&self) -> (r: Self)
        ensures
            r.rows().len() == self.rows().len(),
            forall|i: int| 0 <= i < self.rows().len() ==> #[trigger] r.rows()[i] == self.rows()[i],
            r.map() == self.map(),
    {
        proof {
            use_type_invariant(self);
        }
        let mut entries: Vec<(String, T)> = Vec::new();
        let mut i: usize = 0;
        while i < self.entries.len()
            invariant
                i <= self.entries@.len(),
                entries@.len() == i,
                forall|j: int| 0 <= j < i ==> #[trigger] entries@[j] == self.entries@[j],
            decreases self.entries@.len() - i,
        {
            let key = self.entries[i].0.clone();
            entries.push((key, self.entries[i].1));
            i = i + 1;
        }
        assert(entries@ =~= self.entries@);
        let r = Tally { entries };
        assert(r.rows() == self.rows());
        assert(r.map() =~= self.map());
        r
    }
}

} // verus!
