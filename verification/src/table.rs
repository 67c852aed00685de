//! A small table from names to items: what the registry files its handlers
//! in, and the tracker its effects.

use vstd::prelude::*;

verus! {

/// Whether `names` lists the members of `set`, each of them once.
pub open spec fn lists(names: Seq<String>, set: Set<Seq<char>>) -> bool {
    &&& forall|i: int| 0 <= i < names.len() ==> set.contains(#[trigger] names[i]@)
    &&& forall|name: Seq<char>|
        set.contains(name) ==> exists|i: int| 0 <= i < names.len() && #[trigger] names[i]@ == name
    &&& forall|i: int, j: int| 0 <= i < j < names.len() ==> (#[trigger] names[i])@ != (#[trigger] names[j])@
}

/// One item with the name it is filed under.
struct Filed<T> {
    name: String,
    item: T,
}

/// Items filed under distinct names.
pub struct Table<T> {
    entries: Vec<Filed<T>>,
}

impl<T> Table<T> {
    /// No name is filed twice.
    #[verifier::type_invariant]
    spec fn filed_once(self) -> bool {
        forall|i: int, j: int|
            0 <= i < j < self.entries.len() ==> (#[trigger] self.entries[i]).name@ != (#[trigger] self.entries[j]).name@
    }

    /// Whether `name` is filed at `index`.
    spec fn filed_at(self, name: Seq<char>, index: int) -> bool {
        0 <= index < self.entries.len() && self.entries[index].name@ == name
    }

    /// Where `name` is filed, if it is.
    spec fn slot(self, name: Seq<char>) -> int {
        choose|index: int| self.filed_at(name, index)
    }

    /// The table as a map from each name to its item.
    pub closed spec fn view(&self) -> Map<Seq<char>, T> {
        Map::new(
            |name: Seq<char>| exists|index: int| self.filed_at(name, index),
            |name: Seq<char>| self.entries[self.slot(name)].item,
        )
    }

    /// A table with nothing filed.
    pub fn new() -> (table: Self)
        ensures
            table@ == Map::<Seq<char>, T>::empty(),
    {
        let table = Table { entries: Vec::new() };
        assert(table@ =~= Map::<Seq<char>, T>::empty());
        table
    }

    /// The position at which `name` is filed.
    fn find(&self, name: &String) -> (found: Option<usize>)
        ensures
            match found {
                Some(index) => self.filed_at(name@, index as int) && self@.contains_key(name@) && self@[name@]
                    == self.entries[index as int].item,
                None => !self@.contains_key(name@),
            },
    {
        proof {
            use_type_invariant(self);
        }
        let mut i: usize = 0;
        while i < self.entries.len()
            invariant
                i <= self.entries.len(),
                self.filed_once(),
                forall|j: int| 0 <= j < i ==> (#[trigger] self.entries[j]).name@ != name@,
            decreases self.entries.len() - i,
        {
            if self.entries[i].name == *name {
                proof {
                    self.lemma_slot(name@, i as int);
                }
                return Some(i);
            }
            i = i + 1;
        }
        None
    }

    /// A name is filed at one position only.
    proof fn lemma_slot(self, name: Seq<char>, index: int)
        requires
            self.filed_once(),
            self.filed_at(name, index),
        ensures
            self.slot(name) == index,
            self@.contains_key(name),
            self@[name] == self.entries[index].item,
    {
        let chosen = self.slot(name);
        assert(self.filed_at(name, chosen));
        if chosen < index {
            assert(self.entries[chosen].name@ != self.entries[index].name@);
        } else if chosen > index {
            assert(self.entries[index].name@ != self.entries[chosen].name@);
        }
    }

    /// Files `item` under `name`, in place of what was filed there before.
    /// The first clause says it all; the others spell out what it means for
    /// the names filed and for each item.
    pub fn insert(&mut self, name: String, item: T)
        ensures
            final(self)@ == old(self)@.insert(name@, item),
            final(self)@.dom() == old(self)@.dom().insert(name@),
            final(self)@[name@] == item,
            forall|other: Seq<char>|
                other != name@ && #[trigger] old(self)@.contains_key(other) ==> final(self)@[other] == old(self)@[other],
    {
        proof {
            use_type_invariant(&*self);
        }
        let found = self.find(&name);
        let ghost before = *self;
        let ghost filed = name@;
        let mut entries: Vec<Filed<T>> = Vec::new();
        std::mem::swap(&mut entries, &mut self.entries);
        match found {
            Some(index) => {
                entries.set(index, Filed { name, item });
            },
            None => {
                entries.push(Filed { name, item });
                proof {
                    assert forall|i: int, j: int| 0 <= i < j < entries.len() implies (#[trigger] entries[i]).name@ != (
                    #[trigger] entries[j]).name@ by {
                        if j == before.entries.len() {
                            assert(before.filed_at(entries[i].name@, i));
                        }
                    }
                }
            },
        }
        self.entries = entries;
        proof {
            let now = *self;
            assert forall|key: Seq<char>| now@.contains_key(key) <==> before@.insert(filed, item).contains_key(
                key,
            ) by {
                if now@.contains_key(key) {
                    let i = choose|i: int| now.filed_at(key, i);
                    if i < before.entries.len() && key != filed {
                        assert(before.filed_at(key, i));
                    }
                }
                if before@.insert(filed, item).contains_key(key) {
                    if key == filed {
                        match found {
                            Some(index) => {
                                assert(now.filed_at(key, index as int));
                            },
                            None => {
                                assert(now.filed_at(key, before.entries.len() as int));
                            },
                        }
                    } else {
                        let i = choose|i: int| before.filed_at(key, i);
                        assert(now.filed_at(key, i));
                    }
                }
            }
            assert forall|key: Seq<char>| now@.contains_key(key) implies now@[key] == before@.insert(filed, item)[key] by {
                let i = choose|i: int| now.filed_at(key, i);
                now.lemma_slot(key, i);
                if key == filed {
                    match found {
                        Some(index) => {
                            now.lemma_slot(key, index as int);
                        },
                        None => {
                            now.lemma_slot(key, before.entries.len() as int);
                        },
                    }
                } else {
                    assert(before.filed_at(key, i));
                    before.lemma_slot(key, i);
                }
            }
            assert(now@ =~= before@.insert(filed, item));
            assert(now@.dom() =~= before@.dom().insert(filed));
        }
    }

    /// Takes out what is filed under `name`, and hands it back.  The first
    /// clause says what is left; the next two spell it out.
    pub fn remove(&mut self, name: &String) -> (item: Option<T>)
        ensures
            final(self)@ == old(self)@.remove(name@),
            final(self)@.dom() == old(self)@.dom().remove(name@),
            forall|other: Seq<char>|
                other != name@ && #[trigger] old(self)@.contains_key(other) ==> final(self)@[other] == old(self)@[other],
            match item {
                Some(item) => old(self)@.contains_key(name@) && item == old(self)@[name@],
                None => !old(self)@.contains_key(name@),
            },
    {
        proof {
            use_type_invariant(&*self);
        }
        let found = self.find(name);
        let ghost before = *self;
        match found {
            Some(index) => {
                let mut entries: Vec<Filed<T>> = Vec::new();
                std::mem::swap(&mut entries, &mut self.entries);
                let entry = entries.remove(index);
                proof {
                    assert forall|i: int, j: int| 0 <= i < j < entries.len() implies (#[trigger] entries[i]).name@ != (
                    #[trigger] entries[j]).name@ by {
                        let a = if i < index { i } else { i + 1 };
                        let b = if j < index { j } else { j + 1 };
                        assert(entries[i] == before.entries[a]);
                        assert(entries[j] == before.entries[b]);
                    }
                }
                self.entries = entries;
                proof {
                    let now = *self;
                    assert forall|key: Seq<char>| now@.contains_key(key) <==> before@.remove(name@).contains_key(
                        key,
                    ) by {
                        if now@.contains_key(key) {
                            let i = choose|i: int| now.filed_at(key, i);
                            let a = if i < index { i } else { i + 1 };
                            assert(now.entries[i] == before.entries[a]);
                            assert(before.filed_at(key, a));
                            if a < index {
                                assert(before.entries[a].name@ != before.entries[index as int].name@);
                            } else {
                                assert(before.entries[index as int].name@ != before.entries[a].name@);
                            }
                        }
                        if before@.remove(name@).contains_key(key) {
                            let a = choose|a: int| before.filed_at(key, a);
                            let i = if a < index { a } else { a - 1 };
                            assert(now.entries[i] == before.entries[a]);
                            assert(now.filed_at(key, i));
                        }
                    }
                    assert forall|key: Seq<char>| now@.contains_key(key) implies now@[key] == before@.remove(name@)[key] by {
                        let i = choose|i: int| now.filed_at(key, i);
                        let a = if i < index { i } else { i + 1 };
                        assert(now.entries[i] == before.entries[a]);
                        now.lemma_slot(key, i);
                        before.lemma_slot(key, a);
                    }
                    assert(now@ =~= before@.remove(name@));
                    assert(now@.dom() =~= before@.dom().remove(name@));
                }
                Some(entry.item)
            },
            None => {
                assert(self@ =~= before@.remove(name@));
                assert(self@.dom() =~= before@.dom().remove(name@));
                None
            },
        }
    }

    /// The names filed, each once.
    pub fn names(&self) -> (names: Vec<String>)
        ensures
            lists(names@, self@.dom()),
    {
        proof {
            use_type_invariant(self);
        }
        let mut names: Vec<String> = Vec::new();
        let mut i: usize = 0;
        while i < self.entries.len()
            invariant
                i <= self.entries.len(),
                names.len() == i,
                forall|j: int| 0 <= j < i ==> (#[trigger] names[j])@ == self.entries[j].name@,
            decreases self.entries.len() - i,
        {
            names.push(self.entries[i].name.clone());
            i = i + 1;
        }
        proof {
            assert forall|j: int| 0 <= j < names.len() implies self@.dom().contains(#[trigger] names[j]@) by {
                assert(self.filed_at(names[j]@, j));
            }
            assert forall|name: Seq<char>| self@.dom().contains(name) implies exists|j: int|
                0 <= j < names.len() && #[trigger] names[j]@ == name by {
                let j = choose|j: int| self.filed_at(name, j);
                assert(names[j]@ == name);
            }
        }
        names
    }

    /// The number of names filed.
    pub fn len(&self) -> (count: usize)
        ensures
            count == self@.dom().len(),
            self@.dom().finite(),
    {
        proof {
            use_type_invariant(self);
            self.lemma_count(self.entries.len() as int);
            assert(self@.dom() =~= self.filed_below(self.entries.len() as int));
        }
        self.entries.len()
    }

    /// The names filed at the first `limit` positions.
    spec fn filed_below(self, limit: int) -> Set<Seq<char>> {
        Set::new(|name: Seq<char>| exists|index: int| 0 <= index < limit && self.filed_at(name, index))
    }

    /// Distinct names at the first `limit` positions make a set of `limit` members.
    proof fn lemma_count(self, limit: int)
        requires
            self.filed_once(),
            0 <= limit <= self.entries.len(),
        ensures
            self.filed_below(limit).finite(),
            self.filed_below(limit).len() == limit,
        decreases limit,
    {
        if limit == 0 {
            assert(self.filed_below(limit) =~= Set::<Seq<char>>::empty());
        } else {
            self.lemma_count(limit - 1);
            let last = self.entries[limit - 1].name@;
            assert(self.filed_at(last, limit - 1));
            assert(!self.filed_below(limit - 1).contains(last)) by {
                if self.filed_below(limit - 1).contains(last) {
                    let i = choose|i: int| 0 <= i < limit - 1 && self.filed_at(last, i);
                    assert(self.entries[i].name@ != self.entries[limit - 1].name@);
                }
            }
            assert(self.filed_below(limit) =~= self.filed_below(limit - 1).insert(last)) by {
                assert forall|name: Seq<char>| self.filed_below(limit).contains(name) implies self.filed_below(
                    limit - 1,
                ).insert(last).contains(name) by {
                    let i = choose|i: int| 0 <= i < limit && self.filed_at(name, i);
                    if i < limit - 1 {
                        assert(self.filed_below(limit - 1).contains(name));
                    }
                }
            }
        }
    }

    /// Tells whether something is filed under `name`.
    pub fn contains(&self, name: &String) -> (present: bool)
        ensures
            present == self@.contains_key(name@),
    {
        self.find(name).is_some()
    }

    /// The item filed under `name`.
    pub fn get(&self, name: &String) -> (item: Option<&T>)
        ensures
            match item {
                Some(item) => self@.contains_key(name@) && *item == self@[name@],
                None => !self@.contains_key(name@),
            },
    {
        match self.find(name) {
            Some(index) => Some(&self.entries[index].item),
            None => None,
        }
    }
}

} // verus!
