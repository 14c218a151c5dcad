//! A small map from keys to values.
use vstd::prelude::*;

use crate::address::IpAddress;
use crate::peer::DeviceId;
use crate::text::same_text;

verus! {

/// What can be a key of a [`Table`]: it is found again by what it says.
pub trait TableKey: View + Sized {
    /// Whether two keys say the same.
    fn same_key(&self, other: &Self) -> (same: bool)
        ensures
            same == (self@ == other@),
    ;
}

impl TableKey for DeviceId {
    fn same_key(&self, other: &Self) -> (same: bool) {
        self.same(other)
    }
}

impl TableKey for String {
    fn same_key(&self, other: &Self) -> (same: bool) {
        same_text(self.as_str(), other.as_str())
    }
}

impl View for IpAddress {
    type V = IpAddress;

    open spec fn view(&self) -> IpAddress {
        *self
    }
}

impl TableKey for IpAddress {
    fn same_key(&self, other: &Self) -> (same: bool) {
        *self == *other
    }
}

/// A map from keys to values, in no particular order.
pub struct Table<K: TableKey, T> {
    entries: Vec<(K, T)>,
}

/// No key occurs twice.
spec fn distinct<K: TableKey, T>(entries: Seq<(K, T)>) -> bool {
    forall|i: int, j: int|
        0 <= i < j < entries.len() ==> (#[trigger] entries[i]).0@ != (#[trigger] entries[j]).0@
}

/// Some entry has this key.
spec fn holds<K: TableKey, T>(entries: Seq<(K, T)>, id: K::V) -> bool {
    exists|i: int| 0 <= i < entries.len() && (#[trigger] entries[i]).0@ == id
}

/// Where the entry with this key stands.
spec fn place<K: TableKey, T>(entries: Seq<(K, T)>, id: K::V) -> int {
    choose|i: int| 0 <= i < entries.len() && (#[trigger] entries[i]).0@ == id
}

/// The map that entries stand for.
spec fn mapping<K: TableKey, T>(entries: Seq<(K, T)>) -> Map<K::V, T> {
    Map::new(|id: K::V| holds(entries, id), |id: K::V| entries[place(entries, id)].1)
}

proof fn lemma_place<K: TableKey, T>(entries: Seq<(K, T)>, i: int)
    requires
        distinct(entries),
        0 <= i < entries.len(),
    ensures
        holds(entries, entries[i].0@),
        place(entries, entries[i].0@) == i,
        mapping(entries).contains_key(entries[i].0@),
        mapping(entries)[entries[i].0@] == entries[i].1,
{
    let id = entries[i].0@;
    assert(entries[i].0@ == id);
    let j = place(entries, id);
    assert(0 <= j < entries.len() && entries[j].0@ == id);
}

impl<K: TableKey, T> View for Table<K, T> {
    type V = Map<K::V, T>;

    closed spec fn view(&self) -> Map<K::V, T> {
        mapping(self.entries@)
    }
}

impl<K: TableKey, T> Table<K, T> {
    #[verifier::type_invariant]
    spec fn consistent(self) -> bool {
        distinct(self.entries@)
    }

    /// The values in the order in which [`Table::at`] hands them out.
    pub closed spec fn listed(&self) -> Seq<(K::V, T)> {
        self.entries@.map_values(|entry: (K, T)| (entry.0@, entry.1))
    }

    /// An empty map.
    pub fn new() -> (table: Self)
        ensures
            table@ == Map::<K::V, T>::empty(),
            table.listed().len() == 0,
    {
        let table = Table { entries: Vec::new() };
        assert(table@ =~= Map::<K::V, T>::empty());
        table
    }

    /// How many keys the map holds. Every key is listed, and none is listed twice.
    pub fn len(&self) -> (len: usize)
        ensures
            len == self.listed().len(),
            self@.dom().finite(),
            len == self@.dom().len(),
            forall|i: int, j: int|
                0 <= i < j < self.listed().len() ==> (#[trigger] self.listed()[i]).0 != (
                #[trigger] self.listed()[j]).0,
            forall|i: int|
                0 <= i < self.listed().len() ==> self@.contains_key((#[trigger] self.listed()[i]).0)
                    && self@[self.listed()[i].0] == self.listed()[i].1,
            forall|id: K::V| #[trigger]
                self@.contains_key(id) ==> self.listed().contains((id, self@[id])),
    {
        proof {
            use_type_invariant(self);
            assert forall|i: int| 0 <= i < self.listed().len() implies self@.contains_key(
                (#[trigger] self.listed()[i]).0,
            ) && self@[self.listed()[i].0] == self.listed()[i].1 by {
                lemma_place(self.entries@, i);
            }
            assert forall|id: K::V| #[trigger]
                self@.contains_key(id) implies self.listed().contains((id, self@[id])) by {
                let i = place(self.entries@, id);
                assert(holds(self.entries@, id));
                lemma_place(self.entries@, i);
                assert(self.listed()[i] == (id, self@[id]));
            }
            let keys = self.listed().map_values(|entry: (K::V, T)| entry.0);
            assert forall|i: int, j: int|
                0 <= i < keys.len() && 0 <= j < keys.len() && i != j implies keys[i] != keys[j] by {
                assert(self.entries@[i].0@ != self.entries@[j].0@);
            }
            keys.unique_seq_to_set();
            assert(keys.to_set() =~= self@.dom()) by {
                assert forall|id: K::V| keys.to_set().contains(id) <==> self@.contains_key(id) by {
                    if self@.contains_key(id) {
                        let i = choose|i: int|
                            0 <= i < self.listed().len() && self.listed()[i] == (id, self@[id]);
                        assert(keys[i] == id);
                    }
                    if keys.contains(id) {
                        let i = choose|i: int| 0 <= i < keys.len() && keys[i] == id;
                        assert(self.listed()[i].0 == id);
                    }
                }
            }
        }
        self.entries.len()
    }

    /// The entry at a position, counted in some fixed order.
    pub fn at(&self, i: usize) -> (entry: (&K, &T))
        requires
            i < self.listed().len(),
        ensures
            entry.0@ == self.listed()[i as int].0,
            *entry.1 == self.listed()[i as int].1,
            self@.contains_key(entry.0@),
            self@[entry.0@] == *entry.1,
    {
        proof {
            use_type_invariant(self);
            lemma_place(self.entries@, i as int);
        }
        (&self.entries[i].0, &self.entries[i].1)
    }

    fn find(&self, id: &K) -> (found: Option<usize>)
        ensures
            match found {
                Some(i) => i < self.entries@.len() && self.entries@[i as int].0@ == id@
                    && self@.contains_key(id@) && self@[id@] == self.entries@[i as int].1,
                None => !self@.contains_key(id@),
            },
    {
        proof {
            use_type_invariant(self);
        }
        let mut i: usize = 0;
        while i < self.entries.len()
            invariant
                i <= self.entries.len(),
                distinct(self.entries@),
                forall|j: int| 0 <= j < i ==> (#[trigger] self.entries@[j]).0@ != id@,
            decreases self.entries.len() - i,
        {
            if self.entries[i].0.same_key(id) {
                proof {
                    lemma_place(self.entries@, i as int);
                }
                return Some(i);
            }
            i += 1;
        }
        None
    }

    /// The value of a key.
    pub fn get(&self, id: &K) -> (value: Option<&T>)
        ensures
            match value {
                Some(value) => self@.contains_key(id@) && self@[id@] == *value,
                None => !self@.contains_key(id@),
            },
    {
        match self.find(id) {
            Some(i) => Some(&self.entries[i].1),
            None => None,
        }
    }

    /// Removes a key with its value.
    pub fn remove(&mut self, id: &K) -> (value: Option<T>)
        ensures
            final(self)@ == old(self)@.remove(id@),
            match value {
                Some(value) => old(self)@.contains_key(id@) && old(self)@[id@] == value,
                None => !old(self)@.contains_key(id@),
            },
    {
        proof {
            use_type_invariant(&*self);
        }
        let ghost before = self.entries@;
        match self.find(id) {
            Some(i) => {
                let mut entries: Vec<(K, T)> = Vec::new();
                std::mem::swap(&mut entries, &mut self.entries);
                let (_, value) = entries.swap_remove(i);
                proof {
                    lemma_remove(before, entries@, i as int);
                }
                self.entries = entries;
                Some(value)
            },
            None => {
                assert(self@ =~= old(self)@.remove(id@));
                None
            },
        }
    }

    /// Gives a key a value, in place of the one that it had.
    pub fn insert(&mut self, id: K, value: T)
        ensures
            final(self)@ == old(self)@.insert(id@, value),
    {
        let _ = self.remove(&id);
        proof {
            use_type_invariant(&*self);
        }
        let ghost before = self.entries@;
        let mut entries: Vec<(K, T)> = Vec::new();
        std::mem::swap(&mut entries, &mut self.entries);
        let ghost key = id@;
        entries.push((id, value));
        proof {
            assert(entries@.drop_last() =~= before);
            lemma_push(before, entries@);
        }
        self.entries = entries;
        assert(self@ =~= old(self)@.insert(key, value));
    }
}

proof fn lemma_remove<K: TableKey, T>(before: Seq<(K, T)>, after: Seq<(K, T)>, i: int)
    requires
        distinct(before),
        0 <= i < before.len(),
        after == before.update(i, before.last()).drop_last(),
    ensures
        distinct(after),
        mapping(after) == mapping(before).remove(before[i].0@),
{
    let id = before[i].0@;
    assert forall|k: int, j: int| 0 <= k < j < after.len() implies (#[trigger] after[k]).0@ != (
    #[trigger] after[j]).0@ by {
        let a = if k == i {
            before.len() - 1
        } else {
            k
        };
        let b = if j == i {
            before.len() - 1
        } else {
            j
        };
        assert(after[k] == before[a]);
        assert(after[j] == before[b]);
    }
    assert forall|key: K::V| #[trigger]
        holds(after, key) == (holds(before, key) && key != id) && (holds(after, key)
            ==> after[place(after, key)].1 == before[place(before, key)].1) by {
        if holds(after, key) {
            let k = place(after, key);
            let a = if k == i {
                before.len() - 1
            } else {
                k
            };
            assert(after[k] == before[a]);
            assert(a != i);
            lemma_place(before, a);
            lemma_place(before, i);
            lemma_place(after, k);
        }
        if holds(before, key) && key != id {
            let k = place(before, key);
            lemma_place(before, k);
            let a = if k == before.len() - 1 {
                i
            } else {
                k
            };
            assert(after[a] == before[k]);
            assert(holds(after, key));
        }
    }
    assert(mapping(after) =~= mapping(before).remove(id));
}

proof fn lemma_push<K: TableKey, T>(before: Seq<(K, T)>, after: Seq<(K, T)>)
    requires
        distinct(before),
        after.len() == before.len() + 1,
        after.drop_last() == before,
        !mapping(before).contains_key(after.last().0@),
    ensures
        distinct(after),
        mapping(after) == mapping(before).insert(after.last().0@, after.last().1),
{
    let id = after.last().0@;
    let n = before.len();
    assert(forall|k: int| 0 <= k < n ==> after[k] == #[trigger] before[k]);
    assert forall|k: int, j: int| 0 <= k < j < after.len() implies (#[trigger] after[k]).0@ != (
    #[trigger] after[j]).0@ by {
        assert(after[k] == before[k]);
        if j < n {
            assert(after[j] == before[j]);
        } else {
            assert(!holds(before, id));
        }
    }
    assert forall|key: K::V| #[trigger]
        holds(after, key) == (holds(before, key) || key == id) && (holds(before, key)
            ==> after[place(after, key)].1 == before[place(before, key)].1) by {
        lemma_place(after, n as int);
        if holds(before, key) {
            let k = place(before, key);
            lemma_place(before, k);
            assert(after[k] == before[k]);
            lemma_place(after, k);
        }
        if holds(after, key) && key != id {
            let k = place(after, key);
            assert(after[k] == before[k]);
            assert(holds(before, key));
        }
    }
    lemma_place(after, n as int);
    assert(mapping(after) =~= mapping(before).insert(id, after.last().1));
}

} // verus!
