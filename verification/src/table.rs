//! A table of values by name, in the order in which the names came.

use vstd::prelude::*;

use crate::text::same_text;

verus! {

/// Values by name.
pub struct Table<V> {
    entries: Vec<(String, V)>,
}

impl<V> Table<V> {
    /// The names, in the order in which they came.
    pub closed spec fn names(self) -> Seq<Seq<char>> {
        Seq::new(self.entries@.len(), |i: int| self.entries@[i].0@)
    }

    /// The values, in the order in which their names came.
    pub closed spec fn values(self) -> Seq<V> {
        Seq::new(self.entries@.len(), |i: int| self.entries@[i].1)
    }

    /// No name occurs twice.
    pub open spec fn wf(self) -> bool {
        self.names().no_duplicates() && self.names().len() == self.values().len()
    }

    /// The value of each name.
    pub open spec fn view(self) -> Map<Seq<char>, V> {
        Map::new(
            |name: Seq<char>| self.names().contains(name),
            |name: Seq<char>| self.values()[self.names().index_of(name)],
        )
    }

    /// A table without names.
    pub fn new() -> (out: Self)
        ensures
            out.wf(),
            out.names().len() == 0,
            out.view() == Map::<Seq<char>, V>::empty(),
    {
        let out = Table { entries: Vec::new() };
        assert(out.view() =~= Map::<Seq<char>, V>::empty());
        out
    }

    /// How many names there are.
    pub fn len(&self) -> (out: usize)
        ensures
            out == self.names().len(),
            out == self.values().len(),
    {
        self.entries.len()
    }

    /// The `i`th name.
    pub fn name_at(&self, i: usize) -> (out: &String)
        requires
            i < self.names().len(),
        ensures
            out@ == self.names()[i as int],
    {
        &self.entries[i].0
    }

    /// The value of the `i`th name.
    pub fn value_at(&self, i: usize) -> (out: &V)
        requires
            i < self.values().len(),
        ensures
            *out == self.values()[i as int],
    {
        &self.entries[i].1
    }

    fn position(&self, name: &str) -> (out: Option<usize>)
        ensures
            match out {
                Some(i) => i < self.entries@.len() && self.names()[i as int] == name@,
                None => !self.names().contains(name@),
            },
    {
        let mut i: usize = 0;
        let n: usize = self.entries.len();
        while i < n
            invariant
                i <= n,
                n == self.entries@.len(),
                forall|j: int| 0 <= j < i ==> self.names()[j] != name@,
            decreases n - i,
        {
            if same_text(self.entries[i].0.as_str(), name) {
                return Some(i);
            }
            i = i + 1;
        }
        None
    }

    /// The `i`th value is that of the `i`th name.
    pub proof fn lemma_at(self, i: int)
        requires
            self.wf(),
            0 <= i < self.names().len(),
        ensures
            self.view().contains_key(self.names()[i]),
            self.view()[self.names()[i]] == self.values()[i],
    {
        assert(self.names().contains(self.names()[i]));
        let j = self.names().index_of(self.names()[i]);
        assert(j == i);
    }

    /// The value of `name`.
    pub fn get(&self, name: &str) -> (out: Option<&V>)
        requires
            self.wf(),
        ensures
            match out {
                Some(v) => self.view().contains_key(name@) && *v == self.view()[name@],
                None => !self.view().contains_key(name@),
            },
    {
        match self.position(name) {
            Some(i) => {
                proof {
                    self.lemma_at(i as int);
                }
                Some(&self.entries[i].1)
            },
            None => None,
        }
    }

    /// Whether `name` has a value.
    pub fn contains(&self, name: &str) -> (yes: bool)
        ensures
            yes == self.view().contains_key(name@),
    {
        match self.position(name) {
            Some(i) => {
                assert(self.names()[i as int] == name@);
                true
            },
            None => false,
        }
    }

    /// Gives `name` the value `value`. A name that had one keeps its place.
    pub fn insert(&mut self, name: String, value: V) -> (new: bool)
        requires
            old(self).wf(),
        ensures
            final(self).wf(),
            new == !old(self).view().contains_key(name@),
            final(self).view() == old(self).view().insert(name@, value),
            new ==> final(self).names() == old(self).names().push(name@) && final(self).values()
                == old(self).values().push(value),
            !new ==> final(self).names() == old(self).names() && final(self).values() == old(
                self,
            ).values().update(old(self).names().index_of(name@), value),
    {
        let ghost before = *self;
        match self.position(name.as_str()) {
            Some(i) => {
                proof {
                    before.lemma_at(i as int);
                    assert(before.names().index_of(name@) == i);
                }
                self.entries.set(i, (name, value));
                assert(self.names() =~= before.names());
                assert(self.values() =~= before.values().update(i as int, value));
                assert forall|k: Seq<char>| #[trigger]
                    self.view().contains_key(k) implies self.view()[k] == before.view().insert(
                    name@,
                    value,
                )[k] by {
                    let j = before.names().index_of(k);
                    assert(before.names()[j] == k);
                }
                assert(self.view() =~= before.view().insert(name@, value));
                false
            },
            None => {
                let ghost key = name@;
                self.entries.push((name, value));
                assert(self.names() =~= before.names().push(key));
                assert(self.values() =~= before.values().push(value));
                assert(self.names().no_duplicates()) by {
                    assert forall|i: int, j: int|
                        0 <= i < self.names().len() && 0 <= j < self.names().len() && i
                            != j implies self.names()[i] != self.names()[j] by {
                        if i < before.names().len() && j < before.names().len() {
                            assert(before.names()[i] != before.names()[j]);
                        }
                    }
                }
                assert forall|k: Seq<char>| #[trigger]
                    self.view().contains_key(k) == before.view().insert(key, value).contains_key(
                        k,
                    ) by {
                    if before.names().contains(k) {
                        let j = before.names().index_of(k);
                        assert(self.names()[j] == k);
                    }
                    if k == key {
                        assert(self.names()[before.names().len() as int] == k);
                    }
                    if self.names().contains(k) && k != key {
                        let j = self.names().index_of(k);
                        assert(before.names()[j] == k);
                    }
                }
                assert forall|k: Seq<char>| #[trigger]
                    self.view().contains_key(k) implies self.view()[k] == before.view().insert(
                    key,
                    value,
                )[k] by {
                    let j = self.names().index_of(k);
                    assert(self.names()[j] == k);
                    if k == key {
                        assert(self.names()[before.names().len() as int] == k);
                        assert(j == before.names().len());
                    } else {
                        assert(before.names()[j] == k);
                        before.lemma_at(j);
                    }
                }
                assert(self.view() =~= before.view().insert(key, value));
                true
            },
        }
    }

    /// Takes the value of `name` away, where it has one.
    pub fn remove(&mut self, name: &str) -> (had: bool)
        requires
            old(self).wf(),
        ensures
            final(self).wf(),
            had == old(self).view().contains_key(name@),
            final(self).view() == old(self).view().remove(name@),
            had ==> final(self).names() == old(self).names().remove(
                old(self).names().index_of(name@),
            ) && final(self).values() == old(self).values().remove(
                old(self).names().index_of(name@),
            ),
            !had ==> *final(self) == *old(self),
    {
        let ghost before = *self;
        match self.position(name) {
            Some(i) => {
                proof {
                    before.lemma_at(i as int);
                    assert(before.names().index_of(name@) == i);
                }
                let _ = self.entries.remove(i);
                let ghost at = i as int;
                assert(self.names() =~= before.names().remove(at));
                assert(self.values() =~= before.values().remove(at));
                assert(self.names().no_duplicates()) by {
                    assert forall|a: int, b: int|
                        0 <= a < self.names().len() && 0 <= b < self.names().len() && a
                            != b implies self.names()[a] != self.names()[b] by {
                        let x = if a < at { a } else { a + 1 };
                        let y = if b < at { b } else { b + 1 };
                        assert(before.names()[x] != before.names()[y]);
                    }
                }
                assert forall|k: Seq<char>| #[trigger]
                    self.view().contains_key(k) == before.view().remove(name@).contains_key(k) by {
                    if before.names().contains(k) && k != name@ {
                        let j = before.names().index_of(k);
                        assert(before.names()[j] == k);
                        assert(self.names()[if j < at { j } else { j - 1 }] == k);
                    }
                    if self.names().contains(k) {
                        let j = self.names().index_of(k);
                        let x = if j < at { j } else { j + 1 };
                        assert(before.names()[x] == k);
                        if k == name@ {
                            assert(before.names()[at] == k);
                        }
                    }
                }
                assert forall|k: Seq<char>| #[trigger]
                    self.view().contains_key(k) implies self.view()[k] == before.view().remove(
                    name@,
                )[k] by {
                    let j = self.names().index_of(k);
                    let x = if j < at { j } else { j + 1 };
                    assert(before.names()[x] == k);
                    before.lemma_at(x);
                }
                assert(self.view() =~= before.view().remove(name@));
                true
            },
            None => {
                assert(self.view() =~= before.view().remove(name@));
                false
            },
        }
    }
}

} // verus!
