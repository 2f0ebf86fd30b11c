//! Maps from names to values.
use vstd::prelude::*;

use crate::text::same;

verus! {

/// A map from names to values, kept in the order in which the names were first put in.
#[derive(Debug)]
pub struct NameMap<V> {
    entries: Vec<(String, V)>,
}

/// The map that `entries` describe, one behind the other: a later entry of a name wins.
pub open spec fn map_of<V>(entries: Seq<(String, V)>) -> Map<Seq<char>, V>
    decreases entries.len(),
{
    if entries.len() == 0 {
        Map::empty()
    } else {
        map_of(entries.drop_last()).insert(entries.last().0@, entries.last().1)
    }
}

/// Entries with another name do not matter to what a name stands for.
proof fn map_of_other<V>(entries: Seq<(String, V)>, i: int, key: Seq<char>)
    requires
        0 <= i <= entries.len(),
        forall|j: int| i <= j < entries.len() ==> (#[trigger] entries[j]).0@ != key,
    ensures
        map_of(entries).contains_key(key) == map_of(entries.take(i)).contains_key(key),
        map_of(entries).contains_key(key) ==> map_of(entries)[key] == map_of(entries.take(i))[key],
    decreases entries.len(),
{
    if i == entries.len() {
        assert(entries.take(i) == entries);
    } else {
        let t = entries.drop_last();
        assert forall|j: int| i <= j < t.len() implies (#[trigger] t[j]).0@ != key by {
            assert(t[j] == entries[j]);
        }
        map_of_other(t, i, key);
        assert(t.take(i) == entries.take(i));
        assert(entries.last() == entries[entries.len() - 1]);
    }
}

/// Replacing the last entry of a name is putting the new value in.
proof fn map_of_update<V>(entries: Seq<(String, V)>, i: int, entry: (String, V))
    requires
        0 <= i < entries.len(),
        entries[i].0@ == entry.0@,
        forall|j: int| i < j < entries.len() ==> (#[trigger] entries[j]).0@ != entry.0@,
    ensures
        map_of(entries.update(i, entry)) == map_of(entries).insert(entry.0@, entry.1),
    decreases entries.len(),
{
    let u = entries.update(i, entry);
    if i == entries.len() - 1 {
        assert(u.drop_last() == entries.drop_last());
        assert(map_of(u) =~= map_of(entries).insert(entry.0@, entry.1));
    } else {
        let t = entries.drop_last();
        assert forall|j: int| i < j < t.len() implies (#[trigger] t[j]).0@ != entry.0@ by {
            assert(t[j] == entries[j]);
        }
        map_of_update(t, i, entry);
        assert(u.drop_last() == t.update(i, entry));
        assert(entries.last() == entries[entries.len() - 1]);
        assert(map_of(u) =~= map_of(entries).insert(entry.0@, entry.1));
    }
}

/// Every entry's name is in the map, and nothing else is.
proof fn map_of_names<V>(entries: Seq<(String, V)>)
    ensures
        forall|i: int|
            0 <= i < entries.len() ==> map_of(entries).contains_key((#[trigger] entries[i]).0@),
        forall|k: Seq<char>| #[trigger]
            map_of(entries).contains_key(k) ==> exists|i: int|
                0 <= i < entries.len() && (#[trigger] entries[i]).0@ == k,
    decreases entries.len(),
{
    if entries.len() > 0 {
        let t = entries.drop_last();
        map_of_names(t);
        assert forall|i: int| 0 <= i < entries.len() implies map_of(entries).contains_key(
            (#[trigger] entries[i]).0@,
        ) by {
            if i < t.len() {
                assert(t[i] == entries[i]);
            }
        }
        assert forall|k: Seq<char>| #[trigger] map_of(entries).contains_key(k) implies exists|i: int|
            0 <= i < entries.len() && (#[trigger] entries[i]).0@ == k by {
            if k == entries.last().0@ {
                assert(entries[entries.len() - 1].0@ == k);
            } else {
                assert(map_of(t).contains_key(k));
                let i = choose|i: int| 0 <= i < t.len() && (#[trigger] t[i]).0@ == k;
                assert(entries[i].0@ == k);
            }
        }
    }
}

/// The name of an entry is in the map.
pub proof fn names_are_in<V>(entries: Seq<(String, V)>, i: int)
    requires
        0 <= i < entries.len(),
    ensures
        map_of(entries).contains_key(entries[i].0@),
{
    map_of_names(entries);
}

impl<V> View for NameMap<V> {
    type V = Map<Seq<char>, V>;

    closed spec fn view(&self) -> Map<Seq<char>, V> {
        map_of(self.entries@)
    }
}

impl<V> NameMap<V> {
    /// The empty map.
    pub fn new() -> (res: Self)
        ensures
            res@ == Map::<Seq<char>, V>::empty(),
    {
        NameMap { entries: Vec::new() }
    }

    /// Whether the map holds no name.
    pub fn is_empty(&self) -> (res: bool)
        ensures
            res == (self@ == Map::<Seq<char>, V>::empty()),
    {
        proof {
            map_of_names(self.entries@);
            if self.entries@.len() > 0 {
                assert(self@.contains_key(self.entries@[0].0@));
            }
        }
        self.entries.len() == 0
    }

    /// The names with their values.
    pub fn entries(&self) -> (res: &Vec<(String, V)>)
        ensures
            map_of(res@) == self@,
    {
        &self.entries
    }

    /// The position of the entry that decides what `key` stands for.
    fn position(&self, key: &str) -> (res: Option<usize>)
        ensures
            match res {
                Some(i) => {
                    &&& i < self.entries@.len()
                    &&& self.entries@[i as int].0@ == key@
                    &&& forall|j: int|
                        i < j < self.entries@.len() ==> (#[trigger] self.entries@[j]).0@ != key@
                    &&& self@.contains_key(key@)
                    &&& self@[key@] == self.entries@[i as int].1
                },
                None => !self@.contains_key(key@),
            },
    {
        let mut n: usize = self.entries.len();
        while n > 0
            invariant
                n <= self.entries.len(),
                forall|j: int|
                    n <= j < self.entries@.len() ==> (#[trigger] self.entries@[j]).0@ != key@,
            decreases n,
        {
            if same(self.entries[n - 1].0.as_str(), key) {
                proof {
                    map_of_other(self.entries@, n as int, key@);
                    let upto = self.entries@.take(n as int);
                    assert(upto.last() == self.entries@[n - 1]);
                }
                return Some(n - 1);
            }
            n = n - 1;
        }
        proof {
            map_of_names(self.entries@);
        }
        None
    }

    /// What `key` stands for.
    pub fn get(&self, key: &str) -> (res: Option<&V>)
        ensures
            match res {
                Some(v) => self@.contains_key(key@) && *v == self@[key@],
                None => !self@.contains_key(key@),
            },
    {
        match self.position(key) {
            Some(i) => Some(&self.entries[i].1),
            None => None,
        }
    }

    /// Whether `key` stands for something.
    pub fn contains(&self, key: &str) -> (res: bool)
        ensures
            res == self@.contains_key(key@),
    {
        match self.position(key) {
            Some(_) => true,
            None => false,
        }
    }

    /// Lets `key` stand for `value` from now on.
    pub fn insert(&mut self, key: String, value: V)
        ensures
            final(self)@ == old(self)@.insert(key@, value),
    {
        match self.position(key.as_str()) {
            Some(i) => {
                proof {
                    map_of_update(self.entries@, i as int, (key, value));
                }
                self.entries.set(i, (key, value));
            },
            None => {
                let ghost had = self.entries@;
                self.entries.push((key, value));
                assert(self.entries@.drop_last() == had);
            },
        }
    }

    /// What `key` stands for, to be changed in place.
    pub fn get_mut(&mut self, key: &str) -> (res: Option<&mut V>)
        ensures
            match res {
                Some(v) => {
                    &&& old(self)@.contains_key(key@)
                    &&& *v == old(self)@[key@]
                    &&& final(self)@ == old(self)@.insert(key@, *final(v))
                },
                None => !old(self)@.contains_key(key@) && final(self)@ == old(self)@,
            },
    {
        match self.position(key) {
            Some(i) => {
                let ghost had = self.entries@;
                proof {
                    assert forall|entry: (String, V)| entry.0 == had[i as int].0 implies #[trigger]
                        map_of(had.update(i as int, entry)) == map_of(had).insert(
                        key@,
                        entry.1,
                    ) by {
                        map_of_update(had, i as int, entry);
                    }
                }
                let slot: &mut (String, V) = &mut self.entries[i];
                Some(&mut slot.1)
            },
            None => None,
        }
    }
}

} // verus!
