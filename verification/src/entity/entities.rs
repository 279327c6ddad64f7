use super::bits::{bits, bits_is_empty, bits_len, bits_new, bits_pop, bits_set, max_bits, Bits};
use super::entity_bitvec::{ends_set, resize_and_set, set_bits, trim_end};
use super::Entity;
use vstd::prelude::*;

verus! {

/// Hands out entities and takes them back. The number of an entity that was
/// taken back is handed out again before any new number is.
pub struct Entities {
    entities: Bits,
    reclaimed_ids: Bits,
    next_id: u64,
}

impl Default for Entities {
    fn default() -> (entities: Self)
        ensures
            entities.wf(),
            entities.live() == Set::<u64>::empty(),
            entities.reclaimed() == Set::<u64>::empty(),
            entities.next_id() == 0,
    {
        let entities = Self { entities: bits_new(), reclaimed_ids: bits_new(), next_id: 0 };
        assert(entities.live() =~= Set::<u64>::empty());
        assert(entities.reclaimed() =~= Set::<u64>::empty());
        entities
    }
}

impl Entities {
    /// The numbers of the entities that are in use.
    pub closed spec fn live(&self) -> Set<u64> {
        set_bits(bits(self.entities))
    }

    /// The numbers that were taken back and not handed out since.
    pub closed spec fn reclaimed(&self) -> Set<u64> {
        set_bits(bits(self.reclaimed_ids))
    }

    /// The smallest number that was never handed out.
    pub closed spec fn next_id(&self) -> u64 {
        self.next_id
    }

    /// One more than the largest number in use, or less than that number
    /// was: every number in use lies below it.
    pub closed spec fn span(&self) -> nat {
        bits(self.entities).len()
    }

    /// Every number below `next_id` is either in use or taken back, and no
    /// other number is either.
    pub closed spec fn wf(&self) -> bool {
        &&& self.next_id <= max_bits()
        &&& bits(self.entities).len() <= self.next_id
        &&& bits(self.reclaimed_ids).len() <= self.next_id
        &&& ends_set(bits(self.reclaimed_ids))
        &&& forall|id: u64|
            id < self.next_id ==> (#[trigger] self.live().contains(id)
                != self.reclaimed().contains(id))
    }

    /// What `wf` says, for those who cannot see inside.
    pub proof fn lemma_wf(&self)
        requires
            self.wf(),
        ensures
            self.next_id() <= max_bits(),
            self.span() <= self.next_id(),
            forall|id: u64| #[trigger] self.live().contains(id) ==> id < self.span(),
            forall|id: u64| #[trigger] self.reclaimed().contains(id) ==> id < self.next_id(),
            forall|id: u64|
                id < self.next_id() ==> (#[trigger] self.live().contains(id)
                    != self.reclaimed().contains(id)),
    {
    }

    /// Whether `id` is the largest number that was taken back.
    pub open spec fn is_last_reclaimed(&self, id: u64) -> bool {
        &&& self.reclaimed().contains(id)
        &&& forall|other: u64| #[trigger] self.reclaimed().contains(other) ==> other <= id
    }

    /// Whether another entity can be handed out: a number was taken back,
    /// or the next new number is one that a bit vector has room for.
    pub fn can_create(&self) -> (b: bool)
        requires
            self.wf(),
        ensures
            b == (self.reclaimed() != Set::<u64>::empty() || self.next_id() < max_bits()),
    {
        if !bits_is_empty(&self.reclaimed_ids) {
            assert(self.reclaimed().contains((bits(self.reclaimed_ids).len() - 1) as u64));
            true
        } else {
            assert(self.reclaimed() =~= Set::<u64>::empty());
            self.next_id < (usize::MAX / 8) as u64
        }
    }

    /// Hands out an entity that is not in use: the largest number that was
    /// taken back, or a new number where none was.
    pub fn create(&mut self) -> (entity: Entity)
        requires
            old(self).wf(),
            old(self).reclaimed() == Set::<u64>::empty() ==> old(self).next_id() < max_bits(),
        ensures
            final(self).wf(),
            !old(self).live().contains(entity.0),
            final(self).live() == old(self).live().insert(entity.0),
            entity.0 < final(self).span(),
            old(self).span() <= final(self).span(),
            final(self).reclaimed() == old(self).reclaimed().remove(entity.0),
            old(self).reclaimed() == Set::<u64>::empty() ==> entity.0 == old(self).next_id()
                && final(self).next_id() == old(self).next_id() + 1,
            old(self).reclaimed() != Set::<u64>::empty() ==> old(self).is_last_reclaimed(entity.0)
                && final(self).next_id() == old(self).next_id(),
    {
        let entity_id = if !bits_is_empty(&self.reclaimed_ids) {
            // A number that was taken back is used before a new one.
            let last_idx = bits_len(&self.reclaimed_ids) - 1;
            assert(old(self).reclaimed().contains(last_idx as u64));
            bits_pop(&mut self.reclaimed_ids);
            let ghost popped = bits(self.reclaimed_ids);
            assert(set_bits(popped) =~= old(self).reclaimed().remove(last_idx as u64));
            trim_end(&mut self.reclaimed_ids);
            last_idx as u64
        } else {
            assert(old(self).reclaimed() =~= Set::<u64>::empty());
            let entity_id = self.next_id;
            self.next_id += 1;
            assert(self.reclaimed() =~= old(self).reclaimed().remove(entity_id));
            entity_id
        };

        resize_and_set(&mut self.entities, entity_id as usize);
        proof {
            assert(self.live() == old(self).live().insert(entity_id));
            assert(self.reclaimed() == old(self).reclaimed().remove(entity_id));
            assert forall|id: u64| id < self.next_id implies (#[trigger] self.live().contains(id)
                != self.reclaimed().contains(id)) by {
                if id != entity_id {
                    assert(old(self).live().contains(id) == self.live().contains(id));
                    assert(old(self).reclaimed().contains(id) == self.reclaimed().contains(id));
                }
            }
        }
        Entity(entity_id)
    }

    /// Takes `entity` back, so that its number can be handed out again.
    pub fn reclaim(&mut self, entity: Entity)
        requires
            old(self).wf(),
            entity.0 < old(self).span(),
        ensures
            final(self).wf(),
            final(self).live() == old(self).live().remove(entity.0),
            final(self).reclaimed() == old(self).reclaimed().insert(entity.0),
            final(self).next_id() == old(self).next_id(),
    {
        let idx = entity.0 as usize;
        bits_set(&mut self.entities, idx, false);
        assert(set_bits(bits(self.entities)) =~= old(self).live().remove(entity.0));

        // The list of entities ends with one that is in use.
        trim_end(&mut self.entities);

        resize_and_set(&mut self.reclaimed_ids, idx);
    }
}

} // verus!
