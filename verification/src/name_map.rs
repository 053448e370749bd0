//! Small association list from text to values, specified as a map.

use crate::text::text_eq;
use vstd::prelude::*;

verus! {

/// A map keyed by text. Entries keep the order in which their keys first came.
pub struct NameMap<V> {
    pub entries: Vec<(String, V)>,
}


impl<V> NameMap<V> {
    /// No key occurs twice.
    pub open spec fn wf(&self) -> bool {
        forall|i: int, j: int|
            0 <= i < j < self.entries@.len() ==> (#[trigger] self.entries@[i]).0@ != (
            #[trigger] self.entries@[j]).0@
    }

    /// The keys present.
    pub open spec fn has(&self, key: Seq<char>) -> bool {
        exists|i: int| 0 <= i < self.entries@.len() && (#[trigger] self.entries@[i]).0@ == key
    }

    /// Index of the entry for a key that is present.
    pub open spec fn index_of(&self, key: Seq<char>) -> int {
        choose|i: int| 0 <= i < self.entries@.len() && (#[trigger] self.entries@[i]).0@ == key
    }

    /// The value held for a key.
    pub open spec fn value_of(&self, key: Seq<char>) -> V {
        self.entries@[self.index_of(key)].1
    }

    /// The contents as a map.
    pub open spec fn view(&self) -> Map<Seq<char>, V> {
        Map::new(|k: Seq<char>| self.has(k), |k: Seq<char>| self.value_of(k))
    }

    /// In a well-formed map an entry is found under its key.
    pub proof fn lemma_entry(&self, i: int)
        requires
            self.wf(),
            0 <= i < self.entries@.len(),
        ensures
            self@.dom().contains(self.entries@[i].0@),
            self@[self.entries@[i].0@] == self.entries@[i].1,
            self.index_of(self.entries@[i].0@) == i,
    {
        let key = self.entries@[i].0@;
        assert(self.entries@[i].0@ == key);
        assert(self.has(key));
        let j = self.index_of(key);
        assert(0 <= j < self.entries@.len() && self.entries@[j].0@ == key);
        if i < j {
            assert(self.entries@[i].0@ != self.entries@[j].0@);
        }
        if j < i {
            assert(self.entries@[j].0@ != self.entries@[i].0@);
        }
    }

    pub fn new() -> (res: NameMap<V>)
        ensures
            res.wf(),
            res@ == Map::<Seq<char>, V>::empty(),
            res.entries@.len() == 0,
    {
        let res = NameMap { entries: Vec::new() };
        assert(res@ =~= Map::<Seq<char>, V>::empty());
        res
    }

    /// Index of the entry for `key`, if present.
    pub fn find(&self, key: &str) -> (res: Option<usize>)
        requires
            self.wf(),
        ensures
            res is Some <==> self@.dom().contains(key@),
            res matches Some(i) ==> {
                &&& i < self.entries@.len()
                &&& self.entries@[i as int].0@ == key@
                &&& self.entries@[i as int].1 == self@[key@]
            },
    {
        let mut i: usize = 0;
        while i < self.entries.len()
            invariant
                self.wf(),
                i <= self.entries@.len(),
                forall|j: int| 0 <= j < i ==> (#[trigger] self.entries@[j]).0@ != key@,
            decreases self.entries.len() - i,
        {
            if text_eq(self.entries[i].0.as_str(), key) {
                proof {
                    self.lemma_entry(i as int);
                }
                return Some(i);
            }
            i = i + 1;
        }
        None
    }

    /// The value held for `key`.
    pub fn get(&self, key: &str) -> (res: Option<&V>)
        requires
            self.wf(),
        ensures
            res == (if self@.dom().contains(key@) {
                Some(&self@[key@])
            } else {
                None
            }),
    {
        match self.find(key) {
            Some(i) => Some(&self.entries[i].1),
            None => None,
        }
    }

    pub fn contains_key(&self, key: &str) -> (res: bool)
        requires
            self.wf(),
        ensures
            res == self@.dom().contains(key@),
    {
        self.find(key).is_some()
    }

    /// Sets the value for `key`, replacing an earlier one.
    pub fn insert(&mut self, key: String, value: V)
        requires
            old(self).wf(),
        ensures
            final(self).wf(),
            final(self)@ == old(self)@.insert(key@, value),
            old(self)@.dom().contains(key@) ==> final(self).entries@ == old(self).entries@.update(
                old(self).index_of(key@),
                (key, value),
            ),
            !old(self)@.dom().contains(key@) ==> final(self).entries@ == old(self).entries@.push(
                (key, value),
            ),
    {
        let ghost before = *self;
        let ghost k = key@;
        match self.find(key.as_str()) {
            Some(i) => {
                proof {
                    before.lemma_entry(i as int);
                }
                self.entries.set(i, (key, value));
                proof {
                    assert(self.entries@ == before.entries@.update(i as int, (key, value)));
                    assert forall|a: int, b: int|
                        0 <= a < b < self.entries@.len() implies (
                    #[trigger] self.entries@[a]).0@ != (#[trigger] self.entries@[b]).0@ by {
                        assert(before.entries@[a].0@ != before.entries@[b].0@);
                    }
                    assert forall|q: Seq<char>| self.has(q) <==> before.has(q) by {
                        if self.has(q) {
                            let j = self.index_of(q);
                            assert(before.entries@[j].0@ == q);
                        }
                        if before.has(q) {
                            let j = before.index_of(q);
                            assert(self.entries@[j].0@ == q);
                        }
                    }
                    assert forall|q: Seq<char>| self.has(q) implies self@[q]
                        == before@.insert(k, value)[q] by {
                        let j = self.index_of(q);
                        assert(self.entries@[j].0@ == q);
                        self.lemma_entry(j);
                        before.lemma_entry(j);
                    }
                    assert(before@.dom().contains(k));
                    assert(self@ =~= before@.insert(k, value));
                }
            },
            None => {
                self.entries.push((key, value));
                proof {
                    let n = before.entries@.len() as int;
                    assert forall|a: int, b: int|
                        0 <= a < b < self.entries@.len() implies (
                    #[trigger] self.entries@[a]).0@ != (#[trigger] self.entries@[b]).0@ by {
                        if b < n {
                            assert(before.entries@[a].0@ != before.entries@[b].0@);
                        } else if self.entries@[a].0@ == k {
                            assert(before.entries@[a].0@ == k);
                            assert(before.has(k));
                        }
                    }
                    assert(self.entries@[n].0@ == k);
                    assert forall|q: Seq<char>| self.has(q) <==> (before.has(q) || q == k) by {
                        if self.has(q) {
                            let j = self.index_of(q);
                            if j < n {
                                assert(before.entries@[j].0@ == q);
                            }
                        }
                        if before.has(q) {
                            let j = before.index_of(q);
                            assert(self.entries@[j].0@ == q);
                        }
                    }
                    assert forall|q: Seq<char>| self.has(q) implies self@[q]
                        == before@.insert(k, value)[q] by {
                        let j = self.index_of(q);
                        assert(self.entries@[j].0@ == q);
                        self.lemma_entry(j);
                        if j < n {
                            before.lemma_entry(j);
                        }
                    }
                    assert(self@ =~= before@.insert(k, value));
                }
            },
        }
    }
}

/// A name that is there leads to the value of the entry that bears it, and a name that no
/// entry bears leads nowhere.
pub proof fn law_names_lead_to_their_entries<V>(map: NameMap<V>, key: Seq<char>, i: int)
    requires
        map.wf(),
    ensures
        0 <= i < map.entries@.len() && map.entries@[i].0@ == key ==> map@.dom().contains(key)
            && map@[key] == map.entries@[i].1,
        (forall|j: int| 0 <= j < map.entries@.len() ==> (#[trigger] map.entries@[j]).0@ != key)
            ==> !map@.dom().contains(key),
{
    if 0 <= i < map.entries@.len() && map.entries@[i].0@ == key {
        map.lemma_entry(i);
    }
}

} // verus!
