//! The table of followed files: for each file name the path it was opened
//! at and the number of bytes already delivered.

use vstd::prelude::*;

verus! {

/// One followed file.
pub struct Handle {
    /// The file's base name: the key of the table.
    pub name: String,
    /// Where the file is opened again after a rotation.
    pub path: String,
    /// The number of bytes of the file that were already delivered.
    pub offset: u64,
}

/// What the table holds under a file name.
pub struct HandleView {
    pub path: Seq<char>,
    pub offset: u64,
}

impl Handle {
    /// The handle without its key.
    pub open spec fn view(&self) -> HandleView {
        HandleView { path: self.path@, offset: self.offset }
    }
}

/// Some entry has the name `name`.
pub open spec fn holds(entries: Seq<Handle>, name: Seq<char>) -> bool {
    exists|i: int| #![trigger entries[i]] 0 <= i < entries.len() && entries[i].name@ == name
}

/// The position of an entry with the name `name`.
pub open spec fn slot(entries: Seq<Handle>, name: Seq<char>) -> int {
    choose|i: int| #![trigger entries[i]] 0 <= i < entries.len() && entries[i].name@ == name
}

/// No two entries have the same name.
pub open spec fn distinct(entries: Seq<Handle>) -> bool {
    forall|i: int, j: int|
        #![trigger entries[i], entries[j]]
        0 <= i < j < entries.len() ==> entries[i].name@ != entries[j].name@
}

/// The mapping that a sequence of entries stands for.
pub open spec fn mapping(entries: Seq<Handle>) -> Map<Seq<char>, HandleView> {
    Map::new(|name: Seq<char>| holds(entries, name), |name: Seq<char>| entries[slot(entries, name)]@)
}

/// Among distinct entries, the entry at `i` is the one found under its name.
pub proof fn lemma_slot(entries: Seq<Handle>, i: int)
    requires
        distinct(entries),
        0 <= i < entries.len(),
    ensures
        holds(entries, entries[i].name@),
        slot(entries, entries[i].name@) == i,
        mapping(entries).contains_key(entries[i].name@),
        mapping(entries)[entries[i].name@] == entries[i]@,
{
    let name = entries[i].name@;
    let j = slot(entries, name);
    assert(0 <= j < entries.len() && entries[j].name@ == name);
    if j < i {
        assert(entries[j].name@ != entries[i].name@);
    }
    if i < j {
        assert(entries[i].name@ != entries[j].name@);
    }
}

/// The table of followed files, keyed by file name.
pub struct HandleTable {
    entries: Vec<Handle>,
}

impl HandleTable {
    /// The table's invariant: a name occurs once.
    pub closed spec fn wf(&self) -> bool {
        distinct(self.entries@)
    }

    /// The table as a mapping from file name to path and offset.
    pub closed spec fn view(&self) -> Map<Seq<char>, HandleView> {
        mapping(self.entries@)
    }

    /// The empty table.
    pub fn new() -> (table: Self)
        ensures
            table.wf(),
            table@ == Map::<Seq<char>, HandleView>::empty(),
    {
        let table = HandleTable { entries: Vec::new() };
        assert(table@ =~= Map::<Seq<char>, HandleView>::empty());
        table
    }

    fn find(&self, name: &String) -> (found: Option<usize>)
        ensures
            match found {
                Some(i) => i < self.entries@.len() && self.entries@[i as int].name@ == name@,
                None => !holds(self.entries@, name@),
            },
    {
        let mut i: usize = 0;
        while i < self.entries.len()
            invariant
                i <= self.entries@.len(),
                forall|j: int| 0 <= j < i ==> (#[trigger] self.entries@[j]).name@ != name@,
            decreases self.entries@.len() - i,
        {
            if self.entries[i].name == *name {
                return Some(i);
            }
            i += 1;
        }
        None
    }

    /// The handle of the file `name`, if the table has one.
    pub fn get(&self, name: &str) -> (found: Option<&Handle>)
        requires
            self.wf(),
        ensures
            found is Some <==> self@.contains_key(name@),
            found matches Some(handle) ==> handle.name@ == name@ && handle@ == self@[name@],
    {
        let key = name.to_owned();
        match self.find(&key) {
            Some(i) => {
                proof {
                    lemma_slot(self.entries@, i as int);
                }
                Some(&self.entries[i])
            },
            None => None,
        }
    }

    /// Whether the table follows the file `name`.
    pub fn contains(&self, name: &str) -> (found: bool)
        requires
            self.wf(),
        ensures
            found == self@.contains_key(name@),
    {
        self.get(name).is_some()
    }

    /// Puts a handle under `name`, in place of the one that was there, if any.
    pub fn insert(&mut self, name: String, path: String, offset: u64)
        requires
            old(self).wf(),
        ensures
            final(self).wf(),
            final(self)@ == old(self)@.insert(name@, HandleView { path: path@, offset }),
    {
        let ghost before = self.entries@;
        let ghost key = name@;
        let ghost value = HandleView { path: path@, offset };
        let found = self.find(&name);
        let handle = Handle { name, path, offset };
        match found {
            Some(i) => {
                self.entries.set(i, handle);
                proof {
                    let after = self.entries@;
                    assert(forall|j: int|
                        0 <= j < after.len() ==> (#[trigger] after[j]).name@ == before[j].name@);
                    assert(distinct(after)) by {
                        assert forall|a: int, b: int|
                            #![trigger after[a], after[b]]
                            0 <= a < b < after.len() implies after[a].name@ != after[b].name@ by {
                            assert(before[a].name@ != before[b].name@);
                        }
                    }
                    assert forall|n: Seq<char>| holds(after, n) == holds(before, n) by {
                        if holds(after, n) {
                            let j = slot(after, n);
                            assert(before[j].name@ == n);
                        }
                        if holds(before, n) {
                            let j = slot(before, n);
                            assert(after[j].name@ == n);
                        }
                    }
                    assert forall|n: Seq<char>| holds(after, n) implies #[trigger] mapping(after)[n]
                        == mapping(before).insert(key, value)[n] by {
                        let j = slot(after, n);
                        lemma_slot(after, j);
                        lemma_slot(before, j);
                    }
                    assert(holds(before, key)) by {
                        assert(before[i as int].name@ == key);
                    }
                    assert(mapping(after) =~= mapping(before).insert(key, value));
                }
            },
            None => {
                self.entries.push(handle);
                proof {
                    let after = self.entries@;
                    let last = after.len() - 1;
                    assert(forall|j: int| 0 <= j < before.len() ==> #[trigger] after[j] == before[j]);
                    assert(distinct(after)) by {
                        assert forall|a: int, b: int|
                            #![trigger after[a], after[b]]
                            0 <= a < b < after.len() implies after[a].name@ != after[b].name@ by {
                            if b < last {
                                assert(before[a].name@ != before[b].name@);
                            } else {
                                assert(before[a].name@ != key);
                            }
                        }
                    }
                    assert forall|n: Seq<char>| holds(after, n) == (holds(before, n) || n == key) by {
                        if holds(after, n) {
                            let j = slot(after, n);
                            if j < last {
                                assert(before[j].name@ == n);
                            }
                        }
                        if holds(before, n) {
                            let j = slot(before, n);
                            assert(after[j].name@ == n);
                        }
                        if n == key {
                            assert(after[last].name@ == n);
                        }
                    }
                    assert forall|n: Seq<char>| holds(after, n) implies #[trigger] mapping(after)[n]
                        == mapping(before).insert(key, value)[n] by {
                        let j = slot(after, n);
                        lemma_slot(after, j);
                        if j < last {
                            lemma_slot(before, j);
                        }
                    }
                    assert(mapping(after) =~= mapping(before).insert(key, value));
                }
            },
        }
    }

    /// Drops the handle of the file `name`, if the table has one, and says
    /// whether it had.
    pub fn remove(&mut self, name: &str) -> (removed: bool)
        requires
            old(self).wf(),
        ensures
            final(self).wf(),
            final(self)@ == old(self)@.remove(name@),
            removed == old(self)@.contains_key(name@),
    {
        let ghost before = self.entries@;
        let ghost key = name@;
        let owned = name.to_owned();
        match self.find(&owned) {
            Some(i) => {
                let _ = self.entries.remove(i);
                proof {
                    let after = self.entries@;
                    let at = i as int;
                    assert(forall|j: int| 0 <= j < at ==> #[trigger] after[j] == before[j]);
                    assert(forall|j: int|
                        at <= j < after.len() ==> #[trigger] after[j] == before[j + 1]);
                    assert(distinct(after)) by {
                        assert forall|a: int, b: int|
                            #![trigger after[a], after[b]]
                            0 <= a < b < after.len() implies after[a].name@ != after[b].name@ by {
                            let x = if a < at { a } else { a + 1 };
                            let y = if b < at { b } else { b + 1 };
                            assert(before[x].name@ != before[y].name@);
                        }
                    }
                    assert forall|n: Seq<char>| holds(after, n) == (holds(before, n) && n != key) by {
                        if holds(after, n) {
                            let j = slot(after, n);
                            let x = if j < at { j } else { j + 1 };
                            assert(before[x].name@ == n);
                            if x < at {
                                assert(before[x].name@ != before[at].name@);
                            } else {
                                assert(before[at].name@ != before[x].name@);
                            }
                        }
                        if holds(before, n) && n != key {
                            let x = slot(before, n);
                            let j = if x < at { x } else { x - 1 };
                            assert(after[j].name@ == n);
                        }
                    }
                    assert forall|n: Seq<char>| holds(after, n) implies #[trigger] mapping(after)[n]
                        == mapping(before).remove(key)[n] by {
                        let j = slot(after, n);
                        let x = if j < at { j } else { j + 1 };
                        lemma_slot(after, j);
                        lemma_slot(before, x);
                    }
                    assert(holds(before, key)) by {
                        assert(before[at].name@ == key);
                    }
                    assert(mapping(after) =~= mapping(before).remove(key));
                }
                true
            },
            None => {
                assert(mapping(before) =~= mapping(before).remove(key));
                false
            },
        }
    }
}

} // verus!
