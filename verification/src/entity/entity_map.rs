use super::Entity;
use std::collections::HashMap;
use vstd::prelude::*;

verus! {

broadcast use vstd::std_specs::hash::group_hash_axioms;

/// Map of entity properties, by the number of the entity. This suits
/// properties that few entities have or that take a lot of memory.
pub struct EntityMap<T> {
    inner: HashMap<u64, T>,
}

impl<T> View for EntityMap<T> {
    type V = Map<u64, T>;

    /// The properties that are set, by the number of their entity.
    closed spec fn view(&self) -> Map<u64, T> {
        self.inner@
    }
}

/// The value under `key`, to be changed in place.
///
/// Calls `HashMap::get_mut`, which returns a mutable reference to the value
/// that the key is mapped to, or nothing where the map does not hold the
/// key. The map changes in that value alone.
#[verifier::external_body]
fn map_get_mut<'a, T>(map: &'a mut HashMap<u64, T>, key: &u64) -> (found: Option<&'a mut T>)
    ensures
        match found {
            Some(val) => {
                &&& old(map)@.contains_key(*key)
                &&& *val == old(map)@[*key]
                &&& final(map)@ == old(map)@.insert(*key, *final(val))
            },
            None => !old(map)@.contains_key(*key) && final(map)@ == old(map)@,
        },
{
    map.get_mut(key)
}

impl<T> Default for EntityMap<T> {
    fn default() -> (m: Self)
        ensures
            m@ == Map::<u64, T>::empty(),
            m@.dom().finite(),
    {
        Self { inner: HashMap::new() }
    }
}

impl<T> EntityMap<T> {
    /// The map holds finitely many properties.
    pub proof fn lemma_finite(&self)
        ensures
            self@.dom().finite(),
    {
    }

    /// Sets the property of `entity` and returns the one it had before.
    pub fn set(&mut self, entity: Entity, val: T) -> (previous: Option<T>)
        ensures
            final(self)@ == old(self)@.insert(entity.0, val),
            previous == if old(self)@.contains_key(entity.0) {
                Some(old(self)@[entity.0])
            } else {
                None
            },
            final(self)@.dom().finite(),
            final(self)@.len() == old(self)@.len() + if old(self)@.contains_key(entity.0) {
                0int
            } else {
                1int
            },
    {
        proof {
            self.lemma_finite();
        }
        self.inner.insert(entity.0, val)
    }

    /// The property of `entity`, if it has one, to be changed in place.
    pub fn get_mut(&mut self, entity: &Entity) -> (found: Option<&mut T>)
        ensures
            match found {
                Some(val) => {
                    &&& old(self)@.contains_key(entity.0)
                    &&& *val == old(self)@[entity.0]
                    &&& final(self)@ == old(self)@.insert(entity.0, *final(val))
                },
                None => !old(self)@.contains_key(entity.0) && final(self)@ == old(self)@,
            },
    {
        map_get_mut(&mut self.inner, &entity.0)
    }

    /// Takes the property of `entity` out, if it has one.
    pub fn remove(&mut self, entity: &Entity) -> (removed: Option<T>)
        ensures
            final(self)@ == old(self)@.remove(entity.0),
            removed == if old(self)@.contains_key(entity.0) {
                Some(old(self)@[entity.0])
            } else {
                None
            },
            final(self)@.dom().finite(),
            final(self)@.len() == old(self)@.len() - if old(self)@.contains_key(entity.0) {
                1int
            } else {
                0int
            },
    {
        proof {
            self.lemma_finite();
        }
        self.inner.remove(&entity.0)
    }

    /// The entities that have a property, with the property, each once and
    /// in no particular order.
    pub fn iter(&self) -> (pairs: Vec<(Entity, &T)>)
        ensures
            self@.dom().finite(),
            pairs@.len() == self@.len(),
            forall|j: int|
                0 <= j < pairs@.len() ==> self@.contains_key((#[trigger] pairs@[j]).0.0)
                    && *pairs@[j].1 == self@[pairs@[j].0.0],
            forall|j: int, k: int|
                0 <= j < k < pairs@.len() ==> (#[trigger] pairs@[j]).0.0 != (
                #[trigger] pairs@[k]).0.0,
    {
        let mut pairs: Vec<(Entity, &T)> = Vec::new();
        for pair in it: self.inner.iter()
            invariant
                pairs@.len() == it.index(),
                it.seq().len() == self@.len(),
                it.seq().no_duplicates(),
                forall|j: int|
                    0 <= j < it.seq().len() ==> self@.contains_key(*(#[trigger] it.seq()[j]).0)
                        && self@[*it.seq()[j].0] == *it.seq()[j].1,
                forall|j: int|
                    0 <= j < pairs@.len() ==> (#[trigger] pairs@[j]).0.0 == *it.seq()[j].0
                        && pairs@[j].1 == it.seq()[j].1,
        {
            let (id, val) = pair;
            pairs.push((Entity(*id), val));
        }
        pairs
    }
}

} // verus!
