use std::collections::HashMap;
use vstd::prelude::*;
use vstd::std_specs::iter::IteratorSpec;
use crate::id::Id;

verus! {

broadcast use vstd::std_specs::hash::group_hash_axioms;

/// A table from identifiers to values: every identifier has one value or none.
pub struct IdTable<V> {
    slots: HashMap<usize, V>,
}

impl<V> View for IdTable<V> {
    type V = Map<Id, V>;

    closed spec fn view(&self) -> Map<Id, V> {
        Map::new(|id: Id| self.slots@.contains_key(id.0), |id: Id| self.slots@[id.0])
    }
}

impl<V> IdTable<V> {
    /// A table in which no identifier has a value.
    pub fn new() -> (r: Self)
        ensures
            r@ == Map::<Id, V>::empty(),
    {
        let r = IdTable { slots: HashMap::new() };
        assert(r@ =~= Map::<Id, V>::empty());
        r
    }

    /// The value of the identifier, where it has one.
    pub fn get(&self, id: Id) -> (r: Option<&V>)
        ensures
            match r {
                Some(v) => self@.contains_key(id) && *v == self@[id],
                None => !self@.contains_key(id),
            },
    {
        let k: usize = id.0;
        self.slots.get(&k)
    }

    /// The identifier has the value `v` from now on, whatever it had.
    pub fn insert(&mut self, id: Id, v: V)
        ensures
            final(self)@ == old(self)@.insert(id, v),
    {
        self.slots.insert(id.0, v);
        assert(self@ =~= old(self)@.insert(id, v));
    }

    /// Empties the table and returns what it held.
    pub fn take(&mut self) -> (r: Self)
        ensures
            r@ == old(self)@,
            final(self)@ == Map::<Id, V>::empty(),
    {
        let mut held = IdTable::new();
        core::mem::swap(self, &mut held);
        held
    }

    /// The identifiers that have a value, each once, in no particular order.
    pub fn ids(&self) -> (r: Vec<Id>)
        ensures
            r@.no_duplicates(),
            forall|id: Id| r@.contains(id) <==> self@.contains_key(id),
    {
        let mut out: Vec<Id> = Vec::new();
        let ghost keys: Seq<&usize> = self.slots.keys().remaining();
        for k in it: self.slots.keys()
            invariant
                it.seq() == keys,
                out@.len() == it.index(),
                forall|i: int| 0 <= i < out@.len() ==> out@[i] == Id(*keys[i]),
        {
            out.push(Id(*k));
        }
        proof {
            assert(keys.unref().to_set() == self.slots@.dom());
            assert forall|id: Id| out@.contains(id) <==> self@.contains_key(id) by {
                if out@.contains(id) {
                    let i = choose|i: int| 0 <= i < out@.len() && out@[i] == id;
                    assert(keys.unref()[i] == *keys[i]);
                    assert(keys.unref().to_set().contains(*keys[i]));
                }
                if self@.contains_key(id) {
                    assert(keys.unref().to_set().contains(id.0));
                    let i = choose|i: int| 0 <= i < keys.unref().len() && keys.unref()[i] == id.0;
                    assert(keys.unref()[i] == *keys[i]);
                    assert(out@[i] == id);
                }
            }
            assert forall|i: int, j: int|
                0 <= i < out@.len() && 0 <= j < out@.len() && i != j implies out@[i] != out@[j] by {
                assert(keys.unref()[i] == *keys[i]);
                assert(keys.unref()[j] == *keys[j]);
                assert(keys[i] != keys[j]);
            }
        }
        out
    }
}

} // verus!
