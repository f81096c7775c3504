//! A table from names to identities, held in the order in which the names
//! came in. No name stands in it twice.

use crate::identity::Identity;
use vstd::prelude::*;

verus! {

struct NameEntry {
    name: String,
    holder: Identity,
}

/// A finite map from names to identities.
pub struct NameTable {
    entries: Vec<NameEntry>,
}

impl View for NameTable {
    type V = Map<Seq<char>, Seq<u8>>;

    closed spec fn view(&self) -> Map<Seq<char>, Seq<u8>> {
        Map::new(
            |name: Seq<char>| self.has(name),
            |name: Seq<char>| self.entries[self.position(name)].holder@,
        )
    }
}

impl NameTable {
    spec fn at(&self, i: int, name: Seq<char>) -> bool {
        0 <= i < self.entries.len() && self.entries[i].name@ == name
    }

    spec fn has(&self, name: Seq<char>) -> bool {
        exists|i: int| self.at(i, name)
    }

    spec fn position(&self, name: Seq<char>) -> int {
        choose|i: int| self.at(i, name)
    }

    /// No name stands in the table twice.
    pub closed spec fn wf(&self) -> bool {
        forall|i: int, j: int|
            0 <= i < j < self.entries.len() ==> self.entries[i].name@ != self.entries[j].name@
    }

    /// The table without a name.
    pub fn new() -> (table: NameTable)
        ensures
            table.wf(),
            table@ == Map::<Seq<char>, Seq<u8>>::empty(),
    {
        let table = NameTable { entries: Vec::new() };
        assert(table@ =~= Map::<Seq<char>, Seq<u8>>::empty());
        table
    }

    fn find(&self, name: &String) -> (found: Option<usize>)
        ensures
            match found {
                Some(i) => self.at(i as int, name@),
                None => !self.has(name@),
            },
    {
        let mut i: usize = 0;
        while i < self.entries.len()
            invariant
                i <= self.entries.len(),
                forall|k: int| 0 <= k < i ==> !self.at(k, name@),
            decreases self.entries.len() - i,
        {
            if self.entries[i].name == *name {
                return Some(i);
            }
            i = i + 1;
        }
        None
    }

    /// The identity that stands with a name.
    pub fn get(&self, name: &String) -> (holder: Option<&Identity>)
        requires
            self.wf(),
        ensures
            match holder {
                Some(id) => self@.contains_key(name@) && self@[name@] == id@,
                None => !self@.contains_key(name@),
            },
    {
        match self.find(name) {
            Some(i) => {
                assert(self.at(self.position(name@), name@));
                Some(&self.entries[i].holder)
            },
            None => None,
        }
    }

    proof fn lemma_position(&self, i: int, name: Seq<char>)
        requires
            self.wf(),
            self.at(i, name),
        ensures
            self.has(name),
            self.position(name) == i,
            self@.contains_key(name),
            self@[name] == self.entries[i].holder@,
    {
        let p = self.position(name);
        assert(self.at(p, name));
        if p < i {
            assert(self.entries[p].name@ != self.entries[i].name@);
        } else if i < p {
            assert(self.entries[i].name@ != self.entries[p].name@);
        }
    }

    /// Puts an identity with a name, in place of the one that stood there.
    pub fn insert(&mut self, name: String, holder: Identity)
        requires
            old(self).wf(),
        ensures
            final(self).wf(),
            final(self)@ == old(self)@.insert(name@, holder@),
    {
        let ghost before = *self;
        match self.find(&name) {
            Some(i) => {
                self.entries[i].holder = holder;
                proof {
                    assert(self.entries@.len() == before.entries@.len());
                    assert forall|k: int| 0 <= k < self.entries.len() implies #[trigger] self.entries[k].name
                        == before.entries[k].name by {}
                    assert(self.wf());
                    assert forall|n: Seq<char>| #[trigger] self.has(n) == before.has(n) by {
                        if self.has(n) {
                            let k = self.position(n);
                            assert(before.at(k, n));
                        }
                        if before.has(n) {
                            let k = before.position(n);
                            assert(self.at(k, n));
                        }
                    }
                    assert forall|n: Seq<char>| self.has(n) implies #[trigger] self@[n]
                        == before@.insert(name@, holder@)[n] by {
                        let k = self.position(n);
                        self.lemma_position(k, n);
                        assert(before.at(k, n));
                        before.lemma_position(k, n);
                        if n == name@ {
                            self.lemma_position(i as int, n);
                        }
                    }
                    before.lemma_position(i as int, name@);
                    assert(self@ =~= before@.insert(name@, holder@));
                }
            },
            None => {
                self.entries.push(NameEntry { name, holder });
                proof {
                    let last = before.entries.len() as int;
                    assert forall|k: int| 0 <= k < last implies #[trigger] self.entries[k]
                        == before.entries[k] by {}
                    assert forall|k: int| 0 <= k < last implies self.entries[k].name@
                        != name@ by {
                        assert(!before.at(k, name@));
                    }
                    assert(self.wf());
                    assert(self.at(last, name@));
                    assert forall|n: Seq<char>| #[trigger] self.has(n) == (before.has(n) || n
                        == name@) by {
                        if self.has(n) {
                            let k = self.position(n);
                            if k < last {
                                assert(before.at(k, n));
                            }
                        }
                        if before.has(n) {
                            let k = before.position(n);
                            assert(self.at(k, n));
                        }
                    }
                    assert forall|n: Seq<char>| self.has(n) implies #[trigger] self@[n]
                        == before@.insert(name@, holder@)[n] by {
                        let k = self.position(n);
                        self.lemma_position(k, n);
                        if k < last {
                            assert(before.at(k, n));
                            before.lemma_position(k, n);
                        }
                    }
                    assert(self@ =~= before@.insert(name@, holder@));
                }
            },
        }
    }

    /// Takes a name out of the table.
    pub fn remove(&mut self, name: &String)
        requires
            old(self).wf(),
        ensures
            final(self).wf(),
            final(self)@ == old(self)@.remove(name@),
    {
        let ghost before = *self;
        match self.find(name) {
            Some(i) => {
                self.entries.remove(i);
                proof {
                    assert forall|k: int| 0 <= k < self.entries.len() implies #[trigger] self.entries[k]
                        == before.entries[if k < i { k } else { k + 1 }] by {}
                    assert(self.wf()) by {
                        assert forall|a: int, b: int| 0 <= a < b < self.entries.len() implies self.entries[a].name@
                            != self.entries[b].name@ by {
                            let a0 = if a < i { a } else { a + 1 };
                            let b0 = if b < i { b } else { b + 1 };
                            assert(self.entries[a] == before.entries[a0]);
                            assert(self.entries[b] == before.entries[b0]);
                        }
                    }
                    assert forall|n: Seq<char>| #[trigger] self.has(n) == (before.has(n) && n
                        != name@) by {
                        if self.has(n) {
                            let k = self.position(n);
                            let k0 = if k < i { k } else { k + 1 };
                            assert(self.entries[k] == before.entries[k0]);
                            assert(before.at(k0, n));
                            if n == name@ {
                                before.lemma_position(k0, n);
                                before.lemma_position(i as int, n);
                            }
                        }
                        if before.has(n) && n != name@ {
                            let k0 = before.position(n);
                            let k = if k0 < i { k0 } else { k0 - 1 };
                            assert(self.entries[k] == before.entries[k0]);
                            assert(self.at(k, n));
                        }
                    }
                    assert forall|n: Seq<char>| self.has(n) implies #[trigger] self@[n]
                        == before@.remove(name@)[n] by {
                        let k = self.position(n);
                        let k0 = if k < i { k } else { k + 1 };
                        assert(self.entries[k] == before.entries[k0]);
                        self.lemma_position(k, n);
                        before.lemma_position(k0, n);
                    }
                    assert(self@ =~= before@.remove(name@));
                }
            },
            None => {
                proof {
                    assert(self@ =~= before@.remove(name@));
                }
            },
        }
    }

    /// How many names stand in the table.
    pub fn len(&self) -> (n: usize)
        requires
            self.wf(),
        ensures
            n == self.names().len(),
    {
        self.entries.len()
    }

    /// The names of the table, in the order in which they came in.
    pub closed spec fn names(&self) -> Seq<Seq<char>> {
        Seq::new(self.entries@.len(), |i: int| self.entries[i].name@)
    }

    /// The names of the table are its keys, each once.
    pub proof fn lemma_names(&self)
        requires
            self.wf(),
        ensures
            self.names().no_duplicates(),
            forall|n: Seq<char>| self.names().contains(n) <==> self@.contains_key(n),
    {
        let names = self.names();
        assert forall|n: Seq<char>| names.contains(n) <==> self@.contains_key(n) by {
            if names.contains(n) {
                let i = choose|i: int| 0 <= i < names.len() && names[i] == n;
                assert(self.at(i, n));
            }
            if self@.contains_key(n) {
                let i = self.position(n);
                assert(self.at(i, n));
                assert(names[i] == n);
            }
        }
    }

    /// The name at a place of the table, and the identity that stands with it.
    pub fn entry(&self, i: usize) -> (entry: (&String, &Identity))
        requires
            self.wf(),
            i < self.names().len(),
        ensures
            entry.0@ == self.names()[i as int],
            self@.contains_key(entry.0@),
            entry.1@ == self@[entry.0@],
    {
        proof {
            self.lemma_position(i as int, self.entries[i as int].name@);
        }
        (&self.entries[i].name, &self.entries[i].holder)
    }
}

} // verus!
