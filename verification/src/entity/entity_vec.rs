use super::Entity;
use vstd::prelude::*;

verus! {

/// Vector of properties associated with an entity.
///
/// A property lives in the slot whose index is the entity's number, so this
/// suits properties that most entities have and that take little memory.
pub struct EntityVec<T> {
    inner: Vec<Option<T>>,
}

impl<T> View for EntityVec<T> {
    type V = Map<u64, T>;

    /// The properties that are set, by the number of their entity.
    closed spec fn view(&self) -> Map<u64, T> {
        Map::new(
            |id: u64| id < self.inner@.len() && self.inner@[id as int] is Some,
            |id: u64| self.inner@[id as int]->Some_0,
        )
    }
}

impl<T> Default for EntityVec<T> {
    fn default() -> (v: Self)
        ensures
            v@ == Map::<u64, T>::empty(),
            v.slots() == 0,
    {
        let v = Self { inner: Vec::new() };
        assert(v@ =~= Map::<u64, T>::empty());
        v
    }
}

impl<T> EntityVec<T> {
    /// The number of slots that the vector holds at the moment.
    pub closed spec fn slots(&self) -> nat {
        self.inner@.len()
    }

    /// The last slot, if there is one, holds a property.
    pub open spec fn trimmed(&self) -> bool {
        self.slots() == 0 || self@.contains_key((self.slots() - 1) as u64)
    }

    /// Every property lives in one of the slots.
    pub proof fn law_slots_hold_every_property(&self, id: u64)
        requires
            self@.contains_key(id),
        ensures
            id < self.slots(),
    {
    }

    /// Sets the property of `entity` and returns the one it had before.
    pub fn set(&mut self, entity: Entity, val: T) -> (previous: Option<T>)
        requires
            entity.0 < usize::MAX,
        ensures
            final(self)@ == old(self)@.insert(entity.0, val),
            previous == if old(self)@.contains_key(entity.0) {
                Some(old(self)@[entity.0])
            } else {
                None
            },
            final(self).slots() == if old(self).slots() <= entity.0 {
                entity.0 + 1
            } else {
                old(self).slots() as int
            },
            old(self).trimmed() ==> final(self).trimmed(),
    {
        let idx = entity.0 as usize;
        let desired_len = idx + 1;
        while self.inner.len() < desired_len
            invariant
                self.inner@.len() <= desired_len || self.inner@.len() == old(self).inner@.len(),
                self.inner@.len() >= old(self).inner@.len(),
                forall|i: int|
                    0 <= i < old(self).inner@.len() ==> self.inner@[i] == old(self).inner@[i],
                forall|i: int|
                    old(self).inner@.len() <= i < self.inner@.len() ==> self.inner@[i] is None,
            decreases desired_len - self.inner.len(),
        {
            self.inner.push(None);
        }
        let mut slot = Some(val);
        std::mem::swap(&mut self.inner[idx], &mut slot);
        assert(final(self)@ =~= old(self)@.insert(entity.0, val));
        slot
    }

    /// The property of `entity`, if it has one.
    pub fn get(&self, entity: &Entity) -> (found: Option<&T>)
        ensures
            found == if self@.contains_key(entity.0) {
                Some(&self@[entity.0])
            } else {
                None
            },
    {
        if entity.0 >= self.inner.len() as u64 {
            return None;
        }
        let idx = entity.0 as usize;
        self.inner[idx].as_ref()
    }

    /// The property of `entity`, if it has one, to be changed in place.
    pub fn get_mut(&mut self, entity: &Entity) -> (found: Option<&mut T>)
        ensures
            match found {
                Some(val) => {
                    &&& old(self)@.contains_key(entity.0)
                    &&& *val == old(self)@[entity.0]
                    &&& final(self)@ =~= old(self)@.insert(entity.0, *final(val))
                    &&& final(self).slots() == old(self).slots()
                },
                None => {
                    &&& !old(self)@.contains_key(entity.0)
                    &&& final(self)@ =~= old(self)@
                    &&& final(self).slots() == old(self).slots()
                },
            },
    {
        if entity.0 >= self.inner.len() as u64 {
            return None;
        }
        let idx = entity.0 as usize;
        self.inner[idx].as_mut()
    }

    /// The entities that have a property, with the property, in the order of
    /// their numbers.
    pub fn iter(&self) -> (pairs: Vec<(Entity, &T)>)
        ensures
            forall|j: int|
                0 <= j < pairs@.len() ==> self@.contains_key((#[trigger] pairs@[j]).0.0)
                    && *pairs@[j].1 == self@[pairs@[j].0.0],
            forall|j: int, k: int|
                0 <= j < k < pairs@.len() ==> (#[trigger] pairs@[j]).0.0 < (
                #[trigger] pairs@[k]).0.0,
            forall|id: u64|
                self@.contains_key(id) ==> exists|j: int|
                    0 <= j < pairs@.len() && (#[trigger] pairs@[j]).0.0 == id,
    {
        let mut pairs: Vec<(Entity, &T)> = Vec::new();
        let mut i: usize = 0;
        while i < self.inner.len()
            invariant
                i <= self.inner.len(),
                forall|j: int|
                    0 <= j < pairs@.len() ==> (#[trigger] pairs@[j]).0.0 < i && self@.contains_key(
                        pairs@[j].0.0,
                    ) && *pairs@[j].1 == self@[pairs@[j].0.0],
                forall|j: int, k: int|
                    0 <= j < k < pairs@.len() ==> (#[trigger] pairs@[j]).0.0 < (
                    #[trigger] pairs@[k]).0.0,
                forall|id: u64|
                    id < i && self@.contains_key(id) ==> exists|j: int|
                        0 <= j < pairs@.len() && (#[trigger] pairs@[j]).0.0 == id,
            decreases self.inner.len() - i,
        {
            let ghost before = pairs@;
            match &self.inner[i] {
                Some(val) => {
                    pairs.push((Entity(i as u64), val));
                    assert forall|id: u64| id < i + 1 && self@.contains_key(id) implies exists|
                        j: int,
                    |
                        0 <= j < pairs@.len() && (#[trigger] pairs@[j]).0.0 == id by {
                        if id < i {
                            let j = choose|j: int|
                                0 <= j < before.len() && (#[trigger] before[j]).0.0 == id;
                            assert(pairs@[j].0.0 == id);
                        } else {
                            assert(pairs@[pairs@.len() - 1].0.0 == id);
                        }
                    }
                },
                None => {},
            }
            i += 1;
        }
        pairs
    }

    /// Takes the property of `entity` out, if it has one, and drops the empty
    /// slots at the end of the vector.
    pub fn remove(&mut self, entity: &Entity) -> (removed: Option<T>)
        ensures
            final(self)@ == old(self)@.remove(entity.0),
            removed == if old(self)@.contains_key(entity.0) {
                Some(old(self)@[entity.0])
            } else {
                None
            },
            entity.0 < old(self).slots() ==> final(self).trimmed(),
            entity.0 >= old(self).slots() ==> final(self).slots() == old(self).slots(),
    {
        if entity.0 >= self.inner.len() as u64 {
            assert(self@ =~= old(self)@.remove(entity.0));
            return None;
        }
        let idx = entity.0 as usize;
        let mut val = None;
        std::mem::swap(&mut self.inner[idx], &mut val);
        let ghost emptied = self@;
        assert(emptied =~= old(self)@.remove(entity.0));
        self.trim();
        val
    }

    /// Drops the empty slots at the end of the vector.
    fn trim(&mut self)
        ensures
            final(self)@ == old(self)@,
            final(self).trimmed(),
            final(self).slots() <= old(self).slots(),
    {
        while self.inner.len() > 0
            invariant
                self@ == old(self)@,
                self.slots() <= old(self).slots(),
            ensures
                self@ == old(self)@,
                self.trimmed(),
                self.slots() <= old(self).slots(),
            decreases self.inner.len(),
        {
            let last = self.inner.len() - 1;
            if self.inner[last].is_some() {
                break;
            }
            let ghost before = self@;
            self.inner.pop();
            assert(self@ =~= before);
        }
    }
}

} // verus!
