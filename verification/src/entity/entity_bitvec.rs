use super::bits::{
    bits, bits_get, bits_last, bits_len, bits_new, bits_pop, bits_resize, bits_set, max_bits, Bits,
};
use super::Entity;
use vstd::prelude::*;

verus! {

/// The numbers whose bit is set.
pub open spec fn set_bits(flags: Seq<bool>) -> Set<u64> {
    Set::new(|id: u64| id < flags.len() && flags[id as int])
}

/// The last bit, if there is one, is set.
pub open spec fn ends_set(flags: Seq<bool>) -> bool {
    flags.len() == 0 || flags.last()
}

/// Makes `vec` long enough to hold the bit `idx`, and sets that bit.
pub(crate) fn resize_and_set(vec: &mut Bits, idx: usize)
    requires
        idx < max_bits(),
    ensures
        bits(*final(vec)).len() == if bits(*old(vec)).len() <= idx {
            idx + 1
        } else {
            bits(*old(vec)).len() as int
        },
        forall|i: int|
            0 <= i < bits(*final(vec)).len() ==> #[trigger] bits(*final(vec))[i] == (i == idx || (i
                < bits(*old(vec)).len() && bits(*old(vec))[i])),
        set_bits(bits(*final(vec))) == set_bits(bits(*old(vec))).insert(idx as u64),
        ends_set(bits(*old(vec))) ==> ends_set(bits(*final(vec))),
{
    let desired_len = idx + 1;
    if bits_len(vec) < desired_len {
        bits_resize(vec, desired_len, false);
    }
    bits_set(vec, idx, true);
    assert(set_bits(bits(*vec)) =~= set_bits(bits(*old(vec))).insert(idx as u64));
}

/// Takes every cleared bit off the end of `vec`.
pub(crate) fn trim_end(vec: &mut Bits)
    ensures
        ends_set(bits(*final(vec))),
        bits(*final(vec)).len() <= bits(*old(vec)).len(),
        forall|i: int|
            0 <= i < bits(*final(vec)).len() ==> #[trigger] bits(*final(vec))[i] == bits(
                *old(vec),
            )[i],
        set_bits(bits(*final(vec))) == set_bits(bits(*old(vec))),
{
    loop
        invariant
            bits(*vec).len() <= bits(*old(vec)).len(),
            forall|i: int| 0 <= i < bits(*vec).len() ==> #[trigger] bits(*vec)[i] == bits(*old(vec))[i],
            forall|i: int|
                bits(*vec).len() <= i < bits(*old(vec)).len() ==> !#[trigger] bits(*old(vec))[i],
        ensures
            ends_set(bits(*vec)),
            bits(*vec).len() <= bits(*old(vec)).len(),
            forall|i: int| 0 <= i < bits(*vec).len() ==> #[trigger] bits(*vec)[i] == bits(*old(vec))[i],
            forall|i: int|
                bits(*vec).len() <= i < bits(*old(vec)).len() ==> !#[trigger] bits(*old(vec))[i],
        decreases bits(*vec).len(),
    {
        match bits_last(vec) {
            Some(false) => {
                bits_pop(vec);
            },
            _ => {
                break ;
            },
        }
    }
    assert(set_bits(bits(*vec)) =~= set_bits(bits(*old(vec))));
}

/// A set of entities, one bit for each.
pub struct EntityBitVec {
    inner: Bits,
}

impl View for EntityBitVec {
    type V = Set<u64>;

    /// The numbers of the entities in the set.
    closed spec fn view(&self) -> Set<u64> {
        set_bits(bits(self.inner))
    }
}

impl Default for EntityBitVec {
    fn default() -> (v: Self)
        ensures
            v@ == Set::<u64>::empty(),
    {
        let v = Self { inner: bits_new() };
        assert(v@ =~= Set::<u64>::empty());
        v
    }
}

impl EntityBitVec {
    /// Puts `entity` into the set.
    pub fn set(&mut self, entity: Entity)
        requires
            entity.0 < max_bits(),
        ensures
            final(self)@ == old(self)@.insert(entity.0),
    {
        let idx = entity.0 as usize;
        resize_and_set(&mut self.inner, idx);
    }

    /// Whether `entity` is in the set.
    pub fn is_set(&self, entity: Entity) -> (b: bool)
        ensures
            b == self@.contains(entity.0),
    {
        if entity.0 >= bits_len(&self.inner) as u64 {
            return false;
        }
        let idx = entity.0 as usize;
        match bits_get(&self.inner, idx) {
            Some(bit) => bit,
            None => false,
        }
    }

    /// Takes `entity` out of the set.
    pub fn remove(&mut self, entity: &Entity)
        ensures
            final(self)@ == old(self)@.remove(entity.0),
    {
        if entity.0 < bits_len(&self.inner) as u64 {
            let idx = entity.0 as usize;
            bits_set(&mut self.inner, idx, false);
            assert(set_bits(bits(self.inner)) =~= old(self)@.remove(entity.0));
            trim_end(&mut self.inner);
        } else {
            assert(self@ =~= old(self)@.remove(entity.0));
        }
    }
}

} // verus!
