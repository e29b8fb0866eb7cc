//! Tables keyed by a number: where each key's value lives is looked up in a
//! hash map, the values themselves sit in slots that the table owns.

use hashbrown::HashMap;
use vstd::prelude::*;

verus! {

/// The hash map of hashbrown that says in which slot each key's value
/// lives. The verifier does not look inside.
#[verifier::external_body]
pub struct KeyIndex {
    map: HashMap<u128, usize>,
}

/// What the index holds: the slot of every key.
pub uninterp spec fn key_index_entries(index: KeyIndex) -> Map<u128, usize>;

/// `HashMap::new` of hashbrown: a map with no entry.
#[verifier::external_body]
fn key_index_new() -> (index: KeyIndex)
    ensures
        (key_index_entries(index) == Map::<u128, usize>::empty()),
{
    KeyIndex { map: HashMap::new() }
}

/// `HashMap::get` of hashbrown, with the value copied out: the slot that
/// the map holds for `key`, if it holds one.
#[verifier::external_body]
fn key_index_get(index: &KeyIndex, key: u128) -> (slot: Option<usize>)
    ensures
        slot == (if key_index_entries(*index).contains_key(key) {
            Some(key_index_entries(*index)[key])
        } else {
            None
        }),
{
    index.map.get(&key).copied()
}

/// `HashMap::insert` of hashbrown: the map holds `slot` for `key`
/// afterwards, and its other entries as before.
#[verifier::external_body]
fn key_index_insert(index: &mut KeyIndex, key: u128, slot: usize)
    ensures
        key_index_entries(*final(index)) == key_index_entries(*old(index)).insert(key, slot),
{
    index.map.insert(key, slot);
}

/// `HashMap::remove` of hashbrown: the map holds nothing for `key`
/// afterwards, and its other entries as before.
#[verifier::external_body]
fn key_index_remove(index: &mut KeyIndex, key: u128)
    ensures
        key_index_entries(*final(index)) == key_index_entries(*old(index)).remove(key),
{
    index.map.remove(&key);
}

/// A table from keys to values.
pub struct Table<V> {
    index: KeyIndex,
    slots: Vec<Option<V>>,
    vacant: Vec<usize>,
}

impl<V> View for Table<V> {
    type V = Map<u128, V>;

    closed spec fn view(&self) -> Map<u128, V> {
        Map::new(
            |key: u128| key_index_entries(self.index).contains_key(key),
            |key: u128| self.slots@[key_index_entries(self.index)[key] as int]->Some_0,
        )
    }
}

impl<V> Table<V> {
    /// Whether the table keeps its invariant: every key has a slot of its
    /// own, and that slot is filled.
    pub closed spec fn wf(&self) -> bool {
        let entries = key_index_entries(self.index);
        &&& forall|key: u128| #[trigger]
            entries.contains_key(key) ==> entries[key] < self.slots@.len()
                && self.slots@[entries[key] as int] is Some
        &&& forall|a: u128, b: u128|
            #![trigger entries[a], entries[b]]
            entries.contains_key(a) && entries.contains_key(b) && a != b ==> entries[a]
                != entries[b]
    }

    /// A table with no entry.
    pub fn new() -> (table: Table<V>)
        ensures
            table.wf(),
            table@ == Map::<u128, V>::empty(),
    {
        let table = Table { index: key_index_new(), slots: Vec::new(), vacant: Vec::new() };
        assert(table@ =~= Map::<u128, V>::empty());
        table
    }

    pub fn contains_key(&self, key: u128) -> (held: bool)
        ensures
            held == self@.contains_key(key),
    {
        key_index_get(&self.index, key).is_some()
    }

    /// The value under `key`, if there is one.
    pub fn get(&self, key: u128) -> (value: Option<&V>)
        requires
            self.wf(),
        ensures
            match value {
                Some(v) => self@.contains_key(key) && *v == self@[key],
                None => !self@.contains_key(key),
            },
    {
        match key_index_get(&self.index, key) {
            None => None,
            Some(slot) => self.slots[slot].as_ref(),
        }
    }

    /// A slot with nothing in it: one that was vacated, or a new one.
    fn vacant_slot(&mut self) -> (slot: usize)
        requires
            old(self).wf(),
        ensures
            final(self).wf(),
            final(self)@ == old(self)@,
            final(self).index == old(self).index,
            slot < final(self).slots@.len(),
            final(self).slots@[slot as int] is None,
    {
        let ghost before = self@;
        loop
            invariant
                self.wf(),
                self@ == before,
                self.index == old(self).index,
                self.slots == old(self).slots,
            decreases self.vacant@.len(),
        {
            match self.vacant.pop() {
                None => {
                    break ;
                },
                Some(slot) => {
                    if slot < self.slots.len() && self.slots[slot].is_none() {
                        return slot;
                    }
                },
            }
        }
        self.slots.push(None);
        assert(self@ =~= before);
        self.slots.len() - 1
    }

    /// Puts `value` under `key` and hands out what was there before.
    pub fn insert(&mut self, key: u128, value: V) -> (before: Option<V>)
        requires
            old(self).wf(),
        ensures
            final(self).wf(),
            final(self)@ == old(self)@.insert(key, value),
            before == (if old(self)@.contains_key(key) {
                Some(old(self)@[key])
            } else {
                None
            }),
    {
        match key_index_get(&self.index, key) {
            Some(slot) => {
                let mut held = Some(value);
                std::mem::swap(&mut held, &mut self.slots[slot]);
                assert(self@ =~= old(self)@.insert(key, value));
                held
            },
            None => {
                let slot = self.vacant_slot();
                self.slots[slot] = Some(value);
                key_index_insert(&mut self.index, key, slot);
                assert(self@ =~= old(self)@.insert(key, value));
                None
            },
        }
    }

    /// Takes out the value under `key`, if there is one.
    pub fn remove(&mut self, key: u128) -> (value: Option<V>)
        requires
            old(self).wf(),
        ensures
            final(self).wf(),
            final(self)@ == old(self)@.remove(key),
            value == (if old(self)@.contains_key(key) {
                Some(old(self)@[key])
            } else {
                None
            }),
    {
        match key_index_get(&self.index, key) {
            None => {
                assert(self@ =~= old(self)@.remove(key));
                None
            },
            Some(slot) => {
                let mut held = None;
                std::mem::swap(&mut held, &mut self.slots[slot]);
                key_index_remove(&mut self.index, key);
                self.vacant.push(slot);
                assert(self@ =~= old(self)@.remove(key));
                held
            },
        }
    }
}

} // verus!
