//! Tables of entries that a `DashMap` finds by name or by number.
//!
//! The map leads to places in a list that holds the entries, so that what is taken on trust of it
//! is about names, numbers and places alone, and everything about the entries is proved. A table
//! is changed through `&mut`, so that its contracts can tell what it holds before and after;
//! threads share one behind a lock.

use dashmap::DashMap;
use vstd::prelude::*;

verus! {

/// The concurrent hash map of `dashmap`. It is opaque here: what a map from names holds is
/// named by [`name_slots`], what a map from numbers holds by [`id_slots`].
#[verifier::external_type_specification]
#[verifier::external_body]
#[verifier::reject_recursive_types(K)]
#[verifier::reject_recursive_types(V)]
#[verifier::reject_recursive_types(S)]
pub struct ExDashMap<K, V, S>(DashMap<K, V, S>);

/// What a map from names to slots holds.
pub uninterp spec fn name_slots(map: DashMap<String, usize>) -> Map<Seq<char>, usize>;

/// What a map from numbers to slots holds.
pub uninterp spec fn id_slots(map: DashMap<u32, usize>) -> Map<u32, usize>;

/// Calls `DashMap::new`, which makes an empty map.
#[verifier::external_body]
fn new_name_index() -> (r: DashMap<String, usize>)
    ensures
        name_slots(r).dom().is_empty(),
{
    DashMap::new()
}

/// Calls `DashMap::insert`, which binds the key to the value in place of what it was bound to.
#[verifier::external_body]
fn bind_name(map: &mut DashMap<String, usize>, name: String, slot: usize)
    ensures
        name_slots(*final(map)) == name_slots(*old(map)).insert(name@, slot),
{
    map.insert(name, slot);
}

/// Calls `DashMap::get`, which finds the value that the key is bound to.
#[verifier::external_body]
fn find_name(map: &DashMap<String, usize>, name: &str) -> (r: Option<usize>)
    ensures
        r == (if name_slots(*map).contains_key(name@) {
            Some(name_slots(*map)[name@])
        } else {
            None
        }),
{
    map.get(name).map(|slot| *slot)
}

/// Calls `DashMap::remove`, which unbinds the key.
#[verifier::external_body]
fn unbind_name(map: &mut DashMap<String, usize>, name: &str)
    ensures
        name_slots(*final(map)) == name_slots(*old(map)).remove(name@),
{
    map.remove(name);
}

/// Calls `DashMap::new`, which makes an empty map.
#[verifier::external_body]
fn new_id_index() -> (r: DashMap<u32, usize>)
    ensures
        id_slots(r).dom().is_empty(),
{
    DashMap::new()
}

/// Calls `DashMap::insert`, which binds the key to the value in place of what it was bound to.
#[verifier::external_body]
fn bind_id(map: &mut DashMap<u32, usize>, id: u32, slot: usize)
    ensures
        id_slots(*final(map)) == id_slots(*old(map)).insert(id, slot),
{
    map.insert(id, slot);
}

/// Calls `DashMap::get`, which finds the value that the key is bound to.
#[verifier::external_body]
fn find_id(map: &DashMap<u32, usize>, id: u32) -> (r: Option<usize>)
    ensures
        r == (if id_slots(*map).contains_key(id) {
            Some(id_slots(*map)[id])
        } else {
            None
        }),
{
    map.get(&id).map(|slot| *slot)
}

/// Calls `DashMap::remove`, which unbinds the key.
#[verifier::external_body]
fn unbind_id(map: &mut DashMap<u32, usize>, id: u32)
    ensures
        id_slots(*final(map)) == id_slots(*old(map)).remove(id),
{
    map.remove(&id);
}

/// A table of values by name.
pub struct NameTable<V> {
    index: DashMap<String, usize>,
    entries: Vec<(String, V)>,
}

impl<V> NameTable<V> {
    /// The index leads from each name to the entry of that name, and from no other.
    pub closed spec fn wf(self) -> bool {
        let slots = name_slots(self.index);
        &&& forall|name: Seq<char>| #[trigger]
            slots.contains_key(name) ==> slots[name] < self.entries@.len()
                && self.entries@[slots[name] as int].0@ == name
        &&& forall|i: int|
            0 <= i < self.entries@.len() ==> slots.contains_key((#[trigger] self.entries@[i]).0@)
                && slots[self.entries@[i].0@] == i
    }

    /// The entries, by name.
    pub closed spec fn map(self) -> Map<Seq<char>, V> {
        let slots = name_slots(self.index);
        Map::new(
            |name: Seq<char>| slots.contains_key(name),
            |name: Seq<char>| self.entries@[slots[name] as int].1,
        )
    }

    spec fn entry_names(self) -> Seq<Seq<char>> {
        Seq::new(self.entries@.len(), |i: int| self.entries@[i].0@)
    }

    proof fn lemma_names(self)
        requires
            self.wf(),
        ensures
            self.entry_names().no_duplicates(),
            self.entry_names().to_set() == self.map().dom(),
    {
        let slots = name_slots(self.index);
        let names = self.entry_names();
        assert forall|name: Seq<char>| self.map().dom().contains(name) implies names.contains(
            name,
        ) by {
            assert(names[slots[name] as int] == name);
        }
        assert(names.to_set() =~= self.map().dom());
    }

    /// An empty table.
    pub fn new() -> (r: NameTable<V>)
        ensures
            r.wf(),
            r.map() == Map::<Seq<char>, V>::empty(),
    {
        let r = NameTable { index: new_name_index(), entries: Vec::new() };
        assert(r.map() =~= Map::<Seq<char>, V>::empty());
        r
    }

    /// How many names have an entry.
    pub fn len(&self) -> (r: usize)
        requires
            self.wf(),
        ensures
            r == self.map().dom().len(),
            self.map().dom().finite(),
    {
        proof {
            self.lemma_names();
            self.entry_names().unique_seq_to_set();
        }
        self.entries.len()
    }

    /// The entry of that name.
    pub fn get(&self, name: &str) -> (r: Option<&V>)
        requires
            self.wf(),
        ensures
            r == (if self.map().contains_key(name@) {
                Some(&self.map()[name@])
            } else {
                None
            }),
    {
        match find_name(&self.index, name) {
            Some(slot) => Some(&self.entries[slot].1),
            None => None,
        }
    }

    /// Gives the name that value, in place of the one that it had.
    pub fn set(&mut self, name: String, value: V)
        requires
            old(self).wf(),
        ensures
            final(self).wf(),
            final(self).map() == old(self).map().insert(name@, value),
    {
        match find_name(&self.index, name.as_str()) {
            Some(slot) => {
                self.entries.set(slot, (name, value));
            },
            None => {
                let slot = self.entries.len();
                bind_name(&mut self.index, name.clone(), slot);
                self.entries.push((name, value));
            },
        }
        assert(self.map() =~= old(self).map().insert(name@, value));
    }

    /// Takes the entry of that name out.
    pub fn remove(&mut self, name: &str) -> (r: Option<V>)
        requires
            old(self).wf(),
        ensures
            final(self).wf(),
            final(self).map() == old(self).map().remove(name@),
            r == (if old(self).map().contains_key(name@) {
                Some(old(self).map()[name@])
            } else {
                None
            }),
    {
        match find_name(&self.index, name) {
            Some(slot) => {
                unbind_name(&mut self.index, name);
                let entry = self.entries.swap_remove(slot);
                if slot < self.entries.len() {
                    bind_name(&mut self.index, self.entries[slot].0.clone(), slot);
                }
                assert(self.map() =~= old(self).map().remove(name@));
                Some(entry.1)
            },
            None => {
                assert(self.map() =~= old(self).map().remove(name@));
                None
            },
        }
    }

    /// The names that have an entry, each once.
    pub fn names(&self) -> (r: Vec<String>)
        requires
            self.wf(),
        ensures
            r@.map_values(|name: String| name@).no_duplicates(),
            r@.map_values(|name: String| name@).to_set() == self.map().dom(),
    {
        let mut r: Vec<String> = Vec::new();
        for i in 0..self.entries.len()
            invariant
                r@.len() == i,
                forall|j: int| 0 <= j < i ==> (#[trigger] r@[j])@ == self.entries@[j].0@,
        {
            r.push(self.entries[i].0.clone());
        }
        proof {
            self.lemma_names();
            assert(r@.map_values(|name: String| name@) =~= self.entry_names());
        }
        r
    }
}

/// A table of values by number.
pub struct IdTable<V> {
    index: DashMap<u32, usize>,
    entries: Vec<(u32, V)>,
}

impl<V> IdTable<V> {
    /// The index leads from each number to the entry of that number, and from no other.
    pub closed spec fn wf(self) -> bool {
        let slots = id_slots(self.index);
        &&& forall|id: u32| #[trigger]
            slots.contains_key(id) ==> slots[id] < self.entries@.len()
                && self.entries@[slots[id] as int].0 == id
        &&& forall|i: int|
            0 <= i < self.entries@.len() ==> slots.contains_key((#[trigger] self.entries@[i]).0)
                && slots[self.entries@[i].0] == i
    }

    /// The entries, by number.
    pub closed spec fn map(self) -> Map<u32, V> {
        let slots = id_slots(self.index);
        Map::new(
            |id: u32| slots.contains_key(id),
            |id: u32| self.entries@[slots[id] as int].1,
        )
    }

    /// An empty table.
    pub fn new() -> (r: IdTable<V>)
        ensures
            r.wf(),
            r.map() == Map::<u32, V>::empty(),
    {
        let r = IdTable { index: new_id_index(), entries: Vec::new() };
        assert(r.map() =~= Map::<u32, V>::empty());
        r
    }

    /// The entry of that number.
    pub fn get(&self, id: u32) -> (r: Option<&V>)
        requires
            self.wf(),
        ensures
            r == (if self.map().contains_key(id) {
                Some(&self.map()[id])
            } else {
                None
            }),
    {
        match find_id(&self.index, id) {
            Some(slot) => Some(&self.entries[slot].1),
            None => None,
        }
    }

    /// Gives the number that value, in place of the one that it had.
    pub fn set(&mut self, id: u32, value: V)
        requires
            old(self).wf(),
        ensures
            final(self).wf(),
            final(self).map() == old(self).map().insert(id, value),
    {
        match find_id(&self.index, id) {
            Some(slot) => {
                self.entries.set(slot, (id, value));
            },
            None => {
                let slot = self.entries.len();
                bind_id(&mut self.index, id, slot);
                self.entries.push((id, value));
            },
        }
        assert(self.map() =~= old(self).map().insert(id, value));
    }

    /// Takes the entry of that number out.
    pub fn remove(&mut self, id: u32) -> (r: Option<V>)
        requires
            old(self).wf(),
        ensures
            final(self).wf(),
            final(self).map() == old(self).map().remove(id),
            r == (if old(self).map().contains_key(id) {
                Some(old(self).map()[id])
            } else {
                None
            }),
    {
        match find_id(&self.index, id) {
            Some(slot) => {
                unbind_id(&mut self.index, id);
                let entry = self.entries.swap_remove(slot);
                if slot < self.entries.len() {
                    bind_id(&mut self.index, self.entries[slot].0, slot);
                }
                assert(self.map() =~= old(self).map().remove(id));
                Some(entry.1)
            },
            None => {
                assert(self.map() =~= old(self).map().remove(id));
                None
            },
        }
    }
}

} // verus!
