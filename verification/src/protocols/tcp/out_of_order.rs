//! The bounded store of segments that arrived ahead of their turn.

use crate::protocols::tcp::{seq_add, seq_advance, seq_ahead, seq_distance, seq_gap};
use crate::sync::Bytes;
use std::collections::BTreeMap;
use vstd::prelude::*;

verus! {

/// Half the sequence space: a number this far from another, or further, is
/// behind it.
pub const HALF_SPACE: u32 = 0x8000_0000;

/// The sequence number half the space away from `from`.
pub open spec fn opposite_of(from: u32) -> u32 {
    seq_add(from, HALF_SPACE as int)
}

/// Whether `key` is the highest key of `map`, as plain numbers.
pub open spec fn is_highest(map: Map<u32, Bytes>, key: u32) -> bool {
    map.contains_key(key) && forall|other: u32| map.contains_key(other) ==> other <= key
}

/// Whether `key` is the key of `map` with the highest sequence number, as
/// seen from `from`: no key of the map lies further ahead of `from`.
pub open spec fn is_farthest(map: Map<u32, Bytes>, from: u32, key: u32) -> bool {
    map.contains_key(key) && forall|other: u32|
        map.contains_key(other) ==> seq_ahead(from, other) <= seq_ahead(from, key)
}

/// The key of `map` that lies furthest ahead of `from`, where it has one.
pub open spec fn farthest_key(map: Map<u32, Bytes>, from: u32) -> u32 {
    choose|key: u32| is_farthest(map, from, key)
}

/// Segments keyed by the sequence number of their first byte.
pub struct OutOfOrder {
    map: BTreeMap<u32, Bytes>,
}

impl View for OutOfOrder {
    type V = Map<u32, Bytes>;

    closed spec fn view(&self) -> Map<u32, Bytes> {
        self.map@
    }
}

impl OutOfOrder {
    pub fn new() -> (store: OutOfOrder)
        ensures
            store@ == Map::<u32, Bytes>::empty(),
    {
        OutOfOrder { map: BTreeMap::new() }
    }

    pub fn len(&self) -> (n: usize)
        ensures
            n == self@.len(),
            self@.dom().finite(),
    {
        broadcast use vstd::std_specs::btree::group_btree_axioms;
        broadcast use vstd::laws_cmp::group_laws_cmp;

        self.map.len()
    }

    pub fn contains_key(&self, key: u32) -> (held: bool)
        ensures
            held == self@.contains_key(key),
    {
        broadcast use vstd::std_specs::btree::group_btree_axioms;
        broadcast use vstd::laws_cmp::group_laws_cmp;

        self.map.contains_key(&key)
    }

    /// Stores `segment` under `key`, in place of what was there.
    pub fn insert(&mut self, key: u32, segment: Bytes) -> (before: Option<Bytes>)
        ensures
            final(self)@ == old(self)@.insert(key, segment),
            before == (if old(self)@.contains_key(key) {
                Some(old(self)@[key])
            } else {
                None
            }),
    {
        broadcast use vstd::std_specs::btree::group_btree_axioms;
        broadcast use vstd::laws_cmp::group_laws_cmp;

        self.map.insert(key, segment)
    }

    /// Takes out the segment stored under `key`, if there is one.
    pub fn remove(&mut self, key: u32) -> (segment: Option<Bytes>)
        ensures
            final(self)@ == old(self)@.remove(key),
            segment == (if old(self)@.contains_key(key) {
                Some(old(self)@[key])
            } else {
                None
            }),
    {
        broadcast use vstd::std_specs::btree::group_btree_axioms;
        broadcast use vstd::laws_cmp::group_laws_cmp;

        self.map.remove(&key)
    }

    /// Takes out the segment with the highest sequence number, as seen from
    /// `from`: the one that lies furthest ahead of it.
    pub fn evict_farthest(&mut self, from: u32) -> (evicted: Option<(u32, Bytes)>)
        ensures
            match evicted {
                Some((key, segment)) => {
                    &&& is_farthest(old(self)@, from, key)
                    &&& key == farthest_key(old(self)@, from)
                    &&& segment == old(self)@[key]
                    &&& final(self)@ == old(self)@.remove(key)
                },
                None => old(self)@.dom() =~= Set::empty() && final(self)@ == old(self)@,
            },
    {
        broadcast use vstd::std_specs::btree::group_btree_axioms;
        broadcast use vstd::laws_cmp::group_laws_cmp;

        let opposite = seq_advance(from, HALF_SPACE);
        let mut found: Option<u32> = None;
        let mut rank: u32 = 0;
        let ghost mut seen: Seq<u32> = Seq::empty();
        for key in it: self.map.keys()
            invariant
                it.seq().unref().to_set() == self@.dom(),
                opposite == opposite_of(from),
                seen == it.seq().unref().take(it.index()),
                found is None ==> seen.len() == 0,
                found matches Some(best) ==> {
                    &&& self@.contains_key(best)
                    &&& rank == seq_distance(opposite, best)
                    &&& forall|j: int|
                        0 <= j < seen.len() ==> seq_distance(opposite, #[trigger] seen[j]) <= rank
                },
        {
            let here: u32 = seq_gap(opposite, *key);
            proof {
                assert(it.seq().unref()[it.index()] == *key);
                assert(it.seq().unref().to_set().contains(*key));
                assert(it.seq().unref().take(it.index() + 1) =~= seen.push(*key));
                seen = seen.push(*key);
            }
            if found.is_none() || here > rank {
                found = Some(*key);
                rank = here;
            }
        }
        assert(seen.to_set() == self@.dom()) by {
            assert forall|all: Seq<u32>, n: int| n == all.len() implies #[trigger] all.take(n)
                == all by {
                lemma_take_all(all, n);
            }
        }
        match found {
            None => {
                assert(self@.dom() =~= Set::<u32>::empty());
                None
            },
            Some(key) => {
                proof {
                    assert forall|other: u32| self@.contains_key(other) implies seq_ahead(
                        from,
                        other,
                    ) <= seq_ahead(from, key) by {
                        assert(seen.to_set().contains(other));
                        let j = choose|j: int| 0 <= j < seen.len() && seen[j] == other;
                        assert(seq_distance(opposite, seen[j]) <= rank);
                        lemma_ahead_by_opposite(from, other);
                        lemma_ahead_by_opposite(from, key);
                    }
                    lemma_farthest_is_unique(self@, from, key);
                }
                match self.remove(key) {
                    Some(segment) => Some((key, segment)),
                    None => None,
                }
            },
        }
    }
}

/// The first `n` of `n` numbers are all of them.
proof fn lemma_take_all(all: Seq<u32>, n: int)
    requires
        n == all.len(),
    ensures
        all.take(n) == all,
{
    assert(all.take(n) =~= all);
}

/// Seen from `from`, the sequence numbers rise from the number half the
/// space away, round the space, to the number just before it.
pub proof fn lemma_ahead_by_opposite(from: u32, key: u32)
    ensures
        seq_ahead(from, key) == seq_distance(opposite_of(from), key) - HALF_SPACE,
{
}

/// Two sequence numbers that lie equally far ahead of `from` are one.
pub proof fn lemma_ahead_tells_apart(from: u32, a: u32, b: u32)
    requires
        seq_ahead(from, a) == seq_ahead(from, b),
    ensures
        a == b,
{
}

/// A map has at most one key that lies furthest ahead of `from`.
pub proof fn lemma_farthest_is_unique(map: Map<u32, Bytes>, from: u32, key: u32)
    requires
        is_farthest(map, from, key),
    ensures
        farthest_key(map, from) == key,
{
    let chosen = farthest_key(map, from);
    assert(is_farthest(map, from, chosen));
    lemma_ahead_tells_apart(from, chosen, key);
}

/// A finite map that is not empty has a key that lies furthest ahead of
/// `from`.
pub proof fn lemma_some_key_is_farthest(map: Map<u32, Bytes>, from: u32)
    requires
        map.dom().finite(),
        map.len() > 0,
    ensures
        is_farthest(map, from, farthest_key(map, from)),
    decreases map.len(),
{
    let key = choose|key: u32| map.contains_key(key);
    assert(map.contains_key(key)) by {
        if !exists|k: u32| map.contains_key(k) {
            assert(map.dom() =~= Set::<u32>::empty());
        }
    }
    let rest = map.remove(key);
    if rest.len() == 0 {
        assert forall|other: u32| map.contains_key(other) implies other == key by {
            if other != key {
                assert(rest.contains_key(other));
                assert(rest.dom().len() > 0) by {
                    if rest.dom().len() == 0 {
                        assert(rest.dom() =~= Set::<u32>::empty());
                    }
                }
            }
        }
        assert(is_farthest(map, from, key));
    } else {
        lemma_some_key_is_farthest(rest, from);
        let top = farthest_key(rest, from);
        if seq_ahead(from, top) >= seq_ahead(from, key) {
            assert forall|other: u32| map.contains_key(other) implies seq_ahead(from, other)
                <= seq_ahead(from, top) by {
                if other != key {
                    assert(rest.contains_key(other));
                }
            }
            assert(is_farthest(map, from, top));
        } else {
            assert forall|other: u32| map.contains_key(other) implies seq_ahead(from, other)
                <= seq_ahead(from, key) by {
                if other != key {
                    assert(rest.contains_key(other));
                }
            }
            assert(is_farthest(map, from, key));
        }
    }
}

/// Where every key of the map lies ahead of `from` and none beyond the end
/// of the number range, the key furthest ahead is the highest as plain
/// numbers.
pub proof fn lemma_farthest_is_highest_before_the_wrap(map: Map<u32, Bytes>, from: u32, key: u32)
    requires
        is_highest(map, key),
        forall|other: u32| map.contains_key(other) ==> from <= other < from + HALF_SPACE,
    ensures
        is_farthest(map, from, key),
        farthest_key(map, from) == key,
{
    assert forall|other: u32| map.contains_key(other) implies seq_ahead(from, other) <= seq_ahead(
        from,
        key,
    ) by {
        assert(seq_ahead(from, other) == other - from);
        assert(seq_ahead(from, key) == key - from);
    }
    lemma_farthest_is_unique(map, from, key);
}

} // verus!
