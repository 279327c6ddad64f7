use super::range::lemma_columns_have;
use super::{ChunkCoord, ChunkRange, CoordDiff};
use crate::entity::bits::max_bits;
use crate::entity::{Entities, Entity, EntityBitVec, EntityVec};
use std::collections::HashMap;
use vstd::prelude::*;

verus! {

broadcast use vstd::std_specs::hash::group_hash_axioms;

/// A square of the world, and the entities whose hitboxes reach into it.
pub struct Chunk {
    pub x: i32,
    pub y: i32,
    pub entity_hitbox: EntityBitVec,
}

impl Chunk {
    /// The chunk at `x` and `y`, with no entity in it.
    pub fn new(x: i32, y: i32) -> (chunk: Chunk)
        ensures
            chunk.x == x,
            chunk.y == y,
            chunk.entity_hitbox@ == Set::<u64>::empty(),
    {
        Chunk { x, y, entity_hitbox: EntityBitVec::default() }
    }

    /// The hitbox of `entity` no longer reaches into the chunk.
    pub fn remove_entity(&mut self, entity: &Entity)
        ensures
            final(self).entity_hitbox@ == old(self).entity_hitbox@.remove(entity.0),
            final(self).x == old(self).x,
            final(self).y == old(self).y,
    {
        self.entity_hitbox.remove(entity);
    }

    /// The hitbox of `entity` reaches into the chunk.
    pub fn add_entity(&mut self, entity: Entity)
        requires
            entity.0 < max_bits(),
        ensures
            final(self).entity_hitbox@ == old(self).entity_hitbox@.insert(entity.0),
            final(self).x == old(self).x,
            final(self).y == old(self).y,
    {
        self.entity_hitbox.set(entity);
    }
}

/// The hitbox of an entity, as the chunks it reaches.
#[derive(Copy, Clone, Debug, PartialEq, Eq, Structural)]
pub struct EntityHitbox {
    pub entity: Entity,
    pub range: ChunkRange,
}

/// The number under which the chunk at `c` is kept.
pub open spec fn spec_chunk_key(c: ChunkCoord) -> u64 {
    ((c.x - i32::MIN) * 0x1_0000_0000 + (c.y - i32::MIN)) as u64
}

/// The number under which the chunk at `c` is kept.
pub fn chunk_key(c: ChunkCoord) -> (key: u64)
    ensures
        key == spec_chunk_key(c),
{
    let column: u64 = (c.x as i64 - i32::MIN as i64) as u64;
    let row: u64 = (c.y as i64 - i32::MIN as i64) as u64;
    column * 0x1_0000_0000 + row
}

/// The world: its chunks, its entities and their hitboxes.
pub struct World {
    /// The chunks, each under the number of its position.
    pub chunks: HashMap<u64, Chunk>,
    pub entities: Entities,
    pub hitbox: EntityVec<EntityHitbox>,
}

impl Default for World {
    fn default() -> (world: Self)
        ensures
            world.wf(),
            world.chunks() == Map::<ChunkCoord, Set<u64>>::empty(),
            world.hitbox@ == Map::<u64, EntityHitbox>::empty(),
            world.entities.wf(),
            world.entities.next_id() == 0,
    {
        let world = World {
            chunks: HashMap::new(),
            entities: Entities::default(),
            hitbox: EntityVec::default(),
        };
        assert(world.chunks() =~= Map::<ChunkCoord, Set<u64>>::empty());
        world
    }
}

impl World {
    /// The chunks that exist, each with the entities whose hitboxes reach
    /// into it.
    pub open spec fn chunks(&self) -> Map<ChunkCoord, Set<u64>> {
        Map::new(
            |c: ChunkCoord| self.chunks@.contains_key(spec_chunk_key(c)),
            |c: ChunkCoord| self.chunks@[spec_chunk_key(c)].entity_hitbox@,
        )
    }

    /// Every chunk is kept under the number of its own position.
    pub open spec fn wf(&self) -> bool {
        forall|key: u64| #[trigger]
            self.chunks@.contains_key(key) ==> key == spec_chunk_key(
                ChunkCoord { x: self.chunks@[key].x, y: self.chunks@[key].y },
            )
    }

    /// Makes the chunk at `x` and `y`, with no entity in it, in place of
    /// any that was there.
    pub fn generate(&mut self, x: i32, y: i32)
        requires
            old(self).wf(),
        ensures
            final(self).wf(),
            final(self).chunks() == old(self).chunks().insert(
                ChunkCoord { x, y },
                Set::<u64>::empty(),
            ),
            final(self).entities == old(self).entities,
            final(self).hitbox == old(self).hitbox,
    {
        let chunk = Chunk::new(x, y);
        self.chunks.insert(chunk_key(ChunkCoord { x, y }), chunk);
        assert(self.chunks() =~= old(self).chunks().insert(ChunkCoord { x, y }, Set::<u64>::empty()));
    }

    /// Puts `entity` into the chunk at `c`, or takes it out, where that
    /// chunk exists.
    fn mark(&mut self, c: ChunkCoord, entity: Entity, present: bool)
        requires
            old(self).wf(),
            present ==> entity.0 < max_bits(),
        ensures
            final(self).wf(),
            final(self).entities == old(self).entities,
            final(self).hitbox == old(self).hitbox,
            final(self).chunks().dom() == old(self).chunks().dom(),
            forall|other: ChunkCoord| #[trigger]
                final(self).chunks().contains_key(other) ==> final(self).chunks()[other] == if other
                    == c {
                    if present {
                        old(self).chunks()[other].insert(entity.0)
                    } else {
                        old(self).chunks()[other].remove(entity.0)
                    }
                } else {
                    old(self).chunks()[other]
                },
    {
        let key = chunk_key(c);
        match self.chunks.remove(&key) {
            Some(mut chunk) => {
                if present {
                    chunk.add_entity(entity);
                } else {
                    chunk.remove_entity(&entity);
                }
                self.chunks.insert(key, chunk);
                assert(self.chunks().dom() =~= old(self).chunks().dom());
            },
            None => {
                assert(self.chunks@ =~= old(self).chunks@);
                assert(self.chunks().dom() =~= old(self).chunks().dom());
            },
        }
    }

    /// Enters a hitbox: its entity is put into every chunk that the hitbox
    /// reaches and that exists, and the hitbox is kept for the entity.
    pub fn add_hitbox(&mut self, hitbox: EntityHitbox)
        requires
            old(self).wf(),
            hitbox.entity.0 < max_bits(),
        ensures
            final(self).wf(),
            final(self).entities == old(self).entities,
            final(self).hitbox@ == old(self).hitbox@.insert(hitbox.entity.0, hitbox),
            final(self).chunks().dom() == old(self).chunks().dom(),
            forall|c: ChunkCoord| #[trigger]
                final(self).chunks().contains_key(c) ==> final(self).chunks()[c] == if hitbox.range.reaches(
                    c,
                ) {
                    old(self).chunks()[c].insert(hitbox.entity.0)
                } else {
                    old(self).chunks()[c]
                },
    {
        let entity = hitbox.entity;
        let coords = hitbox.range.chunks();
        let mut i: usize = 0;
        while i < coords.len()
            invariant
                i <= coords@.len(),
                self.wf(),
                entity.0 < max_bits(),
                self.entities == old(self).entities,
                self.hitbox == old(self).hitbox,
                self.chunks().dom() == old(self).chunks().dom(),
                forall|c: ChunkCoord| #[trigger]
                    self.chunks().contains_key(c) ==> self.chunks()[c] == if coords@.take(
                        i as int,
                    ).contains(c) {
                        old(self).chunks()[c].insert(entity.0)
                    } else {
                        old(self).chunks()[c]
                    },
            decreases coords@.len() - i,
        {
            let ghost before = self.chunks();
            let ghost seen = coords@.take(i as int);
            self.mark(coords[i], entity, true);
            proof {
                assert(coords@.take(i + 1) =~= seen.push(coords@[i as int]));
                assert forall|c: ChunkCoord| #[trigger]
                    self.chunks().contains_key(c) implies self.chunks()[c] == if coords@.take(
                    i + 1,
                ).contains(c) {
                    old(self).chunks()[c].insert(entity.0)
                } else {
                    old(self).chunks()[c]
                } by {
                    vstd::seq_lib::lemma_seq_contains_after_push(seen, coords@[i as int], c);
                    assert(before.contains_key(c));
                    assert(old(self).chunks()[c].insert(entity.0).insert(entity.0)
                        =~= old(self).chunks()[c].insert(entity.0));
                }
            }
            i += 1;
        }
        proof {
            assert(coords@.take(coords@.len() as int) =~= coords@);
            assert forall|c: ChunkCoord| #[trigger]
                self.chunks().contains_key(c) implies (coords@.contains(c)
                <==> hitbox.range.reaches(c)) by {
                lemma_columns_have(
                    hitbox.range.min.x as int,
                    hitbox.range.max.x as int,
                    hitbox.range.min.y as int,
                    hitbox.range.max.y as int,
                    c,
                );
            }
        }
        self.hitbox.set(entity, hitbox);
    }

    /// Makes a new entity whose hitbox reaches the chunks of `range`, and
    /// enters the hitbox.
    pub fn spawn_entity(&mut self, range: ChunkRange) -> (entity: Entity)
        requires
            old(self).wf(),
            old(self).entities.wf(),
            old(self).entities.reclaimed() == Set::<u64>::empty() ==> old(self).entities.next_id()
                < max_bits(),
        ensures
            final(self).wf(),
            final(self).entities.wf(),
            !old(self).entities.live().contains(entity.0),
            final(self).entities.live() == old(self).entities.live().insert(entity.0),
            final(self).hitbox@ == old(self).hitbox@.insert(
                entity.0,
                EntityHitbox { entity, range },
            ),
            final(self).chunks().dom() == old(self).chunks().dom(),
            forall|c: ChunkCoord| #[trigger]
                final(self).chunks().contains_key(c) ==> final(self).chunks()[c] == if range.reaches(
                    c,
                ) {
                    old(self).chunks()[c].insert(entity.0)
                } else {
                    old(self).chunks()[c]
                },
    {
        let entity = self.entities.create();
        proof {
            self.entities.lemma_wf();
        }
        self.add_hitbox(EntityHitbox { entity, range });
        entity
    }

    /// Moves a hitbox: its entity is put into the chunks that the change
    /// from the hitbox kept for it asks to add, and taken out of those that
    /// the change asks to remove. The hitbox that is kept stays as it is.
    pub fn update_hitbox(&mut self, hitbox: EntityHitbox)
        requires
            old(self).wf(),
            hitbox.entity.0 < max_bits(),
            old(self).hitbox@.contains_key(hitbox.entity.0),
        ensures
            final(self).wf(),
            final(self).entities == old(self).entities,
            final(self).hitbox == old(self).hitbox,
            final(self).chunks().dom() == old(self).chunks().dom(),
            forall|c: ChunkCoord| #[trigger]
                final(self).chunks().contains_key(c) ==> final(self).chunks()[c] == {
                    let change = hitbox.range.change_at(
                        old(self).hitbox@[hitbox.entity.0].range,
                        c,
                    );
                    if change == seq![CoordDiff::Added(c)] {
                        old(self).chunks()[c].insert(hitbox.entity.0)
                    } else if change == seq![CoordDiff::Removed(c)] {
                        old(self).chunks()[c].remove(hitbox.entity.0)
                    } else {
                        old(self).chunks()[c]
                    }
                },
    {
        let entity = hitbox.entity;
        let previous = match self.hitbox.get(&entity) {
            Some(previous) => previous.range,
            None => hitbox.range,
        };
        let diffs = hitbox.range.chunks_diff_from(&previous);
        let mut i: usize = 0;
        while i < diffs.len()
            invariant
                i <= diffs@.len(),
                self.wf(),
                entity.0 < max_bits(),
                self.entities == old(self).entities,
                self.hitbox == old(self).hitbox,
                self.chunks().dom() == old(self).chunks().dom(),
                diffs@ == hitbox.range.diff_columns(
                    previous,
                    hitbox.range.hull(previous).min.x as int,
                    hitbox.range.hull(previous).max.x as int,
                    hitbox.range.hull(previous).min.y as int,
                    hitbox.range.hull(previous).max.y as int,
                ),
                forall|c: ChunkCoord| #[trigger]
                    self.chunks().contains_key(c) ==> self.chunks()[c] == if diffs@.take(
                        i as int,
                    ).contains(CoordDiff::Added(c)) {
                        old(self).chunks()[c].insert(entity.0)
                    } else if diffs@.take(i as int).contains(CoordDiff::Removed(c)) {
                        old(self).chunks()[c].remove(entity.0)
                    } else {
                        old(self).chunks()[c]
                    },
            decreases diffs@.len() - i,
        {
            let ghost before = self.chunks();
            let ghost seen = diffs@.take(i as int);
            match diffs[i] {
                CoordDiff::Added(coord) => {
                    self.mark(coord, entity, true);
                },
                CoordDiff::Removed(coord) => {
                    self.mark(coord, entity, false);
                },
            }
            proof {
                assert(diffs@.take(i + 1) =~= seen.push(diffs@[i as int]));
                assert forall|c: ChunkCoord| #[trigger]
                    self.chunks().contains_key(c) implies self.chunks()[c] == if diffs@.take(
                    i + 1,
                ).contains(CoordDiff::Added(c)) {
                    old(self).chunks()[c].insert(entity.0)
                } else if diffs@.take(i + 1).contains(CoordDiff::Removed(c)) {
                    old(self).chunks()[c].remove(entity.0)
                } else {
                    old(self).chunks()[c]
                } by {
                    vstd::seq_lib::lemma_seq_contains_after_push(
                        seen,
                        diffs@[i as int],
                        CoordDiff::Added(c),
                    );
                    vstd::seq_lib::lemma_seq_contains_after_push(
                        seen,
                        diffs@[i as int],
                        CoordDiff::Removed(c),
                    );
                    hitbox.range.lemma_changes(previous, c);
                    assert(before.contains_key(c));
                    let ours = old(self).chunks()[c];
                    let added = CoordDiff::Added(c);
                    let removed = CoordDiff::Removed(c);
                    if seen.contains(added) {
                        let j = choose|j: int| 0 <= j < seen.len() && seen[j] == added;
                        assert(diffs@[j] == added);
                        assert(diffs@.contains(added));
                    }
                    if seen.contains(removed) {
                        let j = choose|j: int| 0 <= j < seen.len() && seen[j] == removed;
                        assert(diffs@[j] == removed);
                        assert(diffs@.contains(removed));
                    }
                    assert(diffs@.contains(diffs@[i as int]));
                    assert(!(diffs@.contains(added) && diffs@.contains(removed))) by {
                        if diffs@.contains(added) && diffs@.contains(removed) {
                            assert(seq![added][0] == seq![removed][0]);
                        }
                    }
                    assert(ours.insert(entity.0).insert(entity.0) =~= ours.insert(entity.0));
                    assert(ours.remove(entity.0).remove(entity.0) =~= ours.remove(entity.0));
                    assert(ours.remove(entity.0).insert(entity.0) =~= ours.insert(entity.0));
                    assert(ours.insert(entity.0).remove(entity.0) =~= ours.remove(entity.0));
                }
            }
            i += 1;
        }
        proof {
            assert(diffs@.take(diffs@.len() as int) =~= diffs@);
            assert forall|c: ChunkCoord| #[trigger]
                self.chunks().contains_key(c) implies self.chunks()[c] == {
                let change = hitbox.range.change_at(previous, c);
                if change == seq![CoordDiff::Added(c)] {
                    old(self).chunks()[c].insert(entity.0)
                } else if change == seq![CoordDiff::Removed(c)] {
                    old(self).chunks()[c].remove(entity.0)
                } else {
                    old(self).chunks()[c]
                }
            } by {
                hitbox.range.lemma_changes(previous, c);
            }
        }
    }

    /// Takes a hitbox out: its entity is taken out of every chunk that the
    /// hitbox reaches and that exists, and no hitbox is kept for the entity
    /// any more.
    pub fn remove_hitbox(&mut self, hitbox: EntityHitbox)
        requires
            old(self).wf(),
        ensures
            final(self).wf(),
            final(self).entities == old(self).entities,
            final(self).hitbox@ == old(self).hitbox@.remove(hitbox.entity.0),
            final(self).chunks().dom() == old(self).chunks().dom(),
            forall|c: ChunkCoord| #[trigger]
                final(self).chunks().contains_key(c) ==> final(self).chunks()[c] == if hitbox.range.reaches(
                    c,
                ) {
                    old(self).chunks()[c].remove(hitbox.entity.0)
                } else {
                    old(self).chunks()[c]
                },
    {
        let entity = hitbox.entity;
        let coords = hitbox.range.chunks();
        let mut i: usize = 0;
        while i < coords.len()
            invariant
                i <= coords@.len(),
                self.wf(),
                self.entities == old(self).entities,
                self.hitbox == old(self).hitbox,
                self.chunks().dom() == old(self).chunks().dom(),
                forall|c: ChunkCoord| #[trigger]
                    self.chunks().contains_key(c) ==> self.chunks()[c] == if coords@.take(
                        i as int,
                    ).contains(c) {
                        old(self).chunks()[c].remove(entity.0)
                    } else {
                        old(self).chunks()[c]
                    },
            decreases coords@.len() - i,
        {
            let ghost before = self.chunks();
            let ghost seen = coords@.take(i as int);
            self.mark(coords[i], entity, false);
            proof {
                assert(coords@.take(i + 1) =~= seen.push(coords@[i as int]));
                assert forall|c: ChunkCoord| #[trigger]
                    self.chunks().contains_key(c) implies self.chunks()[c] == if coords@.take(
                    i + 1,
                ).contains(c) {
                    old(self).chunks()[c].remove(entity.0)
                } else {
                    old(self).chunks()[c]
                } by {
                    vstd::seq_lib::lemma_seq_contains_after_push(seen, coords@[i as int], c);
                    assert(before.contains_key(c));
                    assert(old(self).chunks()[c].remove(entity.0).remove(entity.0)
                        =~= old(self).chunks()[c].remove(entity.0));
                }
            }
            i += 1;
        }
        proof {
            assert(coords@.take(coords@.len() as int) =~= coords@);
            assert forall|c: ChunkCoord| #[trigger]
                self.chunks().contains_key(c) implies (coords@.contains(c)
                <==> hitbox.range.reaches(c)) by {
                lemma_columns_have(
                    hitbox.range.min.x as int,
                    hitbox.range.max.x as int,
                    hitbox.range.min.y as int,
                    hitbox.range.max.y as int,
                    c,
                );
            }
        }
        self.hitbox.remove(&entity);
    }
}

} // verus!
