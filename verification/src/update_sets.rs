//! Sets of updates that a block makes to the app state.

use vstd::prelude::*;

use crate::types::{bytes_eq, copy_bytes};

verus! {

/// Key-value insertions and key deletions that a block makes to the app state.
pub struct AppStateUpdates {
    pub inserts: Vec<(Vec<u8>, Vec<u8>)>,
    pub deletes: Vec<Vec<u8>>,
}

impl AppStateUpdates {
    /// The keys that these updates insert, with their values, in order.
    pub open spec fn insert_pairs(&self) -> Seq<(Seq<u8>, Seq<u8>)> {
        self.inserts@.map_values(|p: (Vec<u8>, Vec<u8>)| (p.0@, p.1@))
    }

    /// The keys that these updates delete.
    pub open spec fn delete_keys(&self) -> Seq<Seq<u8>> {
        self.deletes@.map_values(|k: Vec<u8>| k@)
    }

    /// The value that these updates insert at `key`: that of the first insertion of `key`.
    pub open spec fn inserted_value(&self, key: Seq<u8>) -> Option<Seq<u8>> {
        first_value(self.insert_pairs(), key)
    }

    pub open spec fn deletes_key(&self, key: Seq<u8>) -> bool {
        self.delete_keys().contains(key)
    }

    /// No updates.
    pub fn new() -> (u: AppStateUpdates)
        ensures
            u.insert_pairs().len() == 0,
            u.delete_keys().len() == 0,
    {
        AppStateUpdates { inserts: Vec::new(), deletes: Vec::new() }
    }

    /// The value that these updates insert at `key`, if any.
    pub fn get_insert(&self, key: &[u8]) -> (v: Option<Vec<u8>>)
        ensures
            match v {
                Some(v) => self.inserted_value(key@) == Some(v@),
                None => self.inserted_value(key@) is None,
            },
    {
        let mut i: usize = 0;
        assert(self.insert_pairs().skip(0) =~= self.insert_pairs());
        while i < self.inserts.len()
            invariant
                i <= self.inserts@.len(),
                first_value(self.insert_pairs(), key@) == first_value(self.insert_pairs().skip(i as int), key@),
            decreases self.inserts@.len() - i,
        {
            proof {
                lemma_first_value_skip(self.insert_pairs(), i as int, key@);
            }
            if bytes_eq(self.inserts[i].0.as_slice(), key) {
                return Some(copy_bytes(self.inserts[i].1.as_slice()));
            }
            i = i + 1;
        }
        assert(self.insert_pairs().skip(i as int).len() == 0);
        None
    }

    /// Whether these updates delete `key`.
    pub fn contains_delete(&self, key: &[u8]) -> (b: bool)
        ensures
            b == self.deletes_key(key@),
    {
        let mut i: usize = 0;
        while i < self.deletes.len()
            invariant
                i <= self.deletes@.len(),
                forall|j: int| 0 <= j < i ==> self.delete_keys()[j] != key@,
            decreases self.deletes@.len() - i,
        {
            if bytes_eq(self.deletes[i].as_slice(), key) {
                assert(self.delete_keys()[i as int] == key@);
                return true;
            }
            i = i + 1;
        }
        false
    }
}

/// The value paired with the first occurrence of `key` in `pairs`.
pub open spec fn first_value(pairs: Seq<(Seq<u8>, Seq<u8>)>, key: Seq<u8>) -> Option<Seq<u8>>
    decreases pairs.len(),
{
    if pairs.len() == 0 {
        None
    } else if pairs[0].0 == key {
        Some(pairs[0].1)
    } else {
        first_value(pairs.drop_first(), key)
    }
}

pub proof fn lemma_first_value_skip(pairs: Seq<(Seq<u8>, Seq<u8>)>, i: int, key: Seq<u8>)
    requires
        0 <= i < pairs.len(),
    ensures
        pairs[i].0 != key ==> first_value(pairs.skip(i), key) == first_value(pairs.skip(i + 1), key),
        pairs[i].0 == key ==> first_value(pairs.skip(i), key) == Some(pairs[i].1),
{
    assert(pairs.skip(i).drop_first() =~= pairs.skip(i + 1));
}

pub proof fn lemma_first_value_push(pairs: Seq<(Seq<u8>, Seq<u8>)>, x: (Seq<u8>, Seq<u8>), key: Seq<u8>)
    ensures
        first_value(pairs.push(x), key) == match first_value(pairs, key) {
            Some(v) => Some(v),
            None => if x.0 == key {
                Some(x.1)
            } else {
                None
            },
        },
    decreases pairs.len(),
{
    if pairs.len() > 0 {
        assert(pairs.push(x).drop_first() =~= pairs.drop_first().push(x));
        lemma_first_value_push(pairs.drop_first(), x, key);
    } else {
        assert(pairs.push(x)[0] == x);
        assert(pairs.push(x).drop_first() =~= Seq::<(Seq<u8>, Seq<u8>)>::empty());
        assert(first_value(pairs.push(x).drop_first(), key) is None);
    }
}

/// The value of `key` after `updates` are applied to a state in which its value is `before`:
/// deleted keys have no value, and an inserted key has its inserted value.
pub open spec fn updated_value(before: Option<Seq<u8>>, updates: AppStateUpdates, key: Seq<u8>) -> Option<Seq<u8>> {
    if updates.deletes_key(key) {
        None
    } else {
        match updates.inserted_value(key) {
            Some(v) => Some(v),
            None => before,
        }
    }
}

/// The pairs of a key-value state as mathematical values.
pub open spec fn state_view(state: Seq<(Vec<u8>, Vec<u8>)>) -> Seq<(Seq<u8>, Seq<u8>)> {
    state.map_values(|p: (Vec<u8>, Vec<u8>)| (p.0@, p.1@))
}

/// Remove every pair for `key` from `state`.
pub fn state_remove(state: &mut Vec<(Vec<u8>, Vec<u8>)>, key: &[u8])
    ensures
        forall|k: Seq<u8>| #![trigger first_value(state_view(final(state)@), k)]
            first_value(state_view(final(state)@), k) == if k == key@ {
                None
            } else {
                first_value(state_view(old(state)@), k)
            },
{
    let mut kept: Vec<(Vec<u8>, Vec<u8>)> = Vec::new();
    let mut i: usize = 0;
    while i < state.len()
        invariant
            i <= state@.len(),
            forall|k: Seq<u8>| #![trigger first_value(state_view(kept@), k)]
                first_value(state_view(kept@), k) == if k == key@ {
                    None
                } else {
                    first_value(state_view(state@.take(i as int)), k)
                },
        decreases state@.len() - i,
    {
        let ghost before = kept@;
        assert(state_view(state@.take(i as int + 1)) =~= state_view(state@.take(i as int)).push(
            (state@[i as int].0@, state@[i as int].1@),
        ));
        if !crate::types::bytes_eq(state[i].0.as_slice(), key) {
            let k = crate::types::copy_bytes(state[i].0.as_slice());
            let v = crate::types::copy_bytes(state[i].1.as_slice());
            kept.push((k, v));
            assert(state_view(kept@) =~= state_view(before).push((state@[i as int].0@, state@[i as int].1@)));
            assert forall|k: Seq<u8>| #![trigger first_value(state_view(kept@), k)]
                first_value(state_view(kept@), k) == if k == key@ {
                    None
                } else {
                    first_value(state_view(state@.take(i as int + 1)), k)
                } by {
                lemma_first_value_push(state_view(before), (state@[i as int].0@, state@[i as int].1@), k);
                lemma_first_value_push(state_view(state@.take(i as int)), (state@[i as int].0@, state@[i as int].1@), k);
            }
        } else {
            assert forall|k: Seq<u8>| #![trigger first_value(state_view(kept@), k)]
                first_value(state_view(kept@), k) == if k == key@ {
                    None
                } else {
                    first_value(state_view(state@.take(i as int + 1)), k)
                } by {
                lemma_first_value_push(state_view(state@.take(i as int)), (state@[i as int].0@, state@[i as int].1@), k);
            }
        }
        i = i + 1;
    }
    assert(state@.take(i as int) =~= state@);
    *state = kept;
}

/// Set the value of `key` in `state` to `value`.
pub fn state_set(state: &mut Vec<(Vec<u8>, Vec<u8>)>, key: &[u8], value: &[u8])
    ensures
        forall|k: Seq<u8>| #![trigger first_value(state_view(final(state)@), k)]
            first_value(state_view(final(state)@), k) == if k == key@ {
                Some(value@)
            } else {
                first_value(state_view(old(state)@), k)
            },
{
    state_remove(state, key);
    let ghost removed = state@;
    state.insert(0, (crate::types::copy_bytes(key), crate::types::copy_bytes(value)));
    assert forall|k: Seq<u8>| #![trigger first_value(state_view(state@), k)]
        first_value(state_view(state@), k) == if k == key@ {
            Some(value@)
        } else {
            first_value(state_view(old(state)@), k)
        } by {
        assert(state_view(state@)[0] == (key@, value@));
        assert(state_view(state@).drop_first() =~= state_view(removed));
        assert(first_value(state_view(removed), k) == if k == key@ { None } else { first_value(state_view(old(state)@), k) });
    }
}

impl AppStateUpdates {
    /// Apply these updates to `state`: every insert (so that the first insert of a key wins), then
    /// every delete.
    pub fn apply_to(&self, state: &mut Vec<(Vec<u8>, Vec<u8>)>)
        ensures
            forall|k: Seq<u8>| #![trigger first_value(state_view(final(state)@), k)]
                first_value(state_view(final(state)@), k) == updated_value(first_value(state_view(old(state)@), k), *self, k),
    {
        let mut i: usize = self.inserts.len();
        assert(self.insert_pairs().skip(i as int).len() == 0);
        while i > 0
            invariant
                i <= self.inserts@.len(),
                forall|k: Seq<u8>| #![trigger first_value(state_view(state@), k)]
                    first_value(state_view(state@), k) == match first_value(self.insert_pairs().skip(i as int), k) {
                        Some(v) => Some(v),
                        None => first_value(state_view(old(state)@), k),
                    },
            decreases i,
        {
            i = i - 1;
            let ghost before = state@;
            state_set(state, self.inserts[i].0.as_slice(), self.inserts[i].1.as_slice());
            assert forall|k: Seq<u8>| #![trigger first_value(state_view(state@), k)]
                first_value(state_view(state@), k) == match first_value(self.insert_pairs().skip(i as int), k) {
                    Some(v) => Some(v),
                    None => first_value(state_view(old(state)@), k),
                } by {
                lemma_first_value_skip(self.insert_pairs(), i as int, k);
                assert(first_value(state_view(before), k) == match first_value(self.insert_pairs().skip(i as int + 1), k) {
                    Some(v) => Some(v),
                    None => first_value(state_view(old(state)@), k),
                });
            }
        }
        assert(self.insert_pairs().skip(0) =~= self.insert_pairs());
        let mut d: usize = 0;
        while d < self.deletes.len()
            invariant
                d <= self.deletes@.len(),
                forall|k: Seq<u8>| #![trigger first_value(state_view(state@), k)]
                    first_value(state_view(state@), k) == if self.delete_keys().take(d as int).contains(k) {
                        None
                    } else {
                        match self.inserted_value(k) {
                            Some(v) => Some(v),
                            None => first_value(state_view(old(state)@), k),
                        }
                    },
            decreases self.deletes@.len() - d,
        {
            let ghost before = state@;
            state_remove(state, self.deletes[d].as_slice());
            assert forall|k: Seq<u8>| #![trigger first_value(state_view(state@), k)]
                first_value(state_view(state@), k) == if self.delete_keys().take(d as int + 1).contains(k) {
                    None
                } else {
                    match self.inserted_value(k) {
                        Some(v) => Some(v),
                        None => first_value(state_view(old(state)@), k),
                    }
                } by {
                assert(self.delete_keys().take(d as int + 1) =~= self.delete_keys().take(d as int).push(self.deletes@[d as int]@));
                assert(first_value(state_view(before), k) == if self.delete_keys().take(d as int).contains(k) {
                    None
                } else {
                    match self.inserted_value(k) {
                        Some(v) => Some(v),
                        None => first_value(state_view(old(state)@), k),
                    }
                });
                if self.delete_keys().take(d as int + 1).contains(k) && k != self.deletes@[d as int]@ {
                    let j = choose|j: int| 0 <= j < d + 1 && #[trigger] self.delete_keys().take(d as int + 1)[j] == k;
                    assert(self.delete_keys().take(d as int)[j] == k);
                }
                if self.delete_keys().take(d as int).contains(k) {
                    let j = choose|j: int| 0 <= j < d && #[trigger] self.delete_keys().take(d as int)[j] == k;
                    assert(self.delete_keys().take(d as int + 1)[j] == k);
                }
                if k == self.deletes@[d as int]@ {
                    assert(self.delete_keys().take(d as int + 1)[d as int] == k);
                }
            }
            d = d + 1;
        }
        assert(self.delete_keys().take(d as int) =~= self.delete_keys());
    }
}

} // verus!
