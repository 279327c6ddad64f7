use aabb_quad_tree::entity::Entity;
use aabb_quad_tree::world::{
    chunk_key, tile_origin, Chunk, ChunkCoord, ChunkRange, CoordDiff, EntityHitbox, StateChangeRequired,
    World, CHUNK_TILE_COUNT, CHUNK_TILE_HEIGHT, CHUNK_TILE_WIDTH, TILE_SIZE_IN_PX,
};

#[test]
fn chunk_changes_name_their_chunk() {
    let here = ChunkCoord { x: 1, y: -2 };
    assert_ne!(CoordDiff::Added(here), CoordDiff::Removed(here));
    assert_eq!(format!("{:?}", StateChangeRequired::default()), "StateChangeRequired");
}


fn range(x0: i32, y0: i32, x1: i32, y1: i32) -> ChunkRange {
    ChunkRange { min: ChunkCoord { x: x0, y: y0 }, max: ChunkCoord { x: x1, y: y1 } }
}

#[test]
fn chunks_come_column_by_column() {
    assert_eq!(
        range(-1, 0, 0, 2).chunks(),
        vec![
            ChunkCoord { x: -1, y: 0 },
            ChunkCoord { x: -1, y: 1 },
            ChunkCoord { x: -1, y: 2 },
            ChunkCoord { x: 0, y: 0 },
            ChunkCoord { x: 0, y: 1 },
            ChunkCoord { x: 0, y: 2 },
        ]
    );
    assert_eq!(range(5, 5, 5, 5).chunks(), vec![ChunkCoord { x: 5, y: 5 }]);
    assert_eq!(range(5, 5, 4, 9).chunks(), Vec::new());
    assert_eq!(range(5, 5, 9, 4).chunks(), Vec::new());
    assert_eq!(
        range(i32::MAX, i32::MAX - 1, i32::MAX, i32::MAX).chunks(),
        vec![
            ChunkCoord { x: i32::MAX, y: i32::MAX - 1 },
            ChunkCoord { x: i32::MAX, y: i32::MAX },
        ]
    );
}

#[test]
fn a_move_along_a_row_adds_and_removes_chunks() {
    let old = range(0, 3, 1, 3);
    let new = range(1, 3, 2, 3);
    assert_eq!(
        new.chunks_diff_from(&old),
        vec![
            CoordDiff::Removed(ChunkCoord { x: 0, y: 3 }),
            CoordDiff::Added(ChunkCoord { x: 2, y: 3 }),
        ]
    );
    assert_eq!(old.chunks_diff_from(&old), Vec::new());
    assert_eq!(
        range(0, 4, 0, 4).chunks_diff_from(&range(0, 3, 0, 3)),
        vec![
            CoordDiff::Removed(ChunkCoord { x: 0, y: 3 }),
            CoordDiff::Added(ChunkCoord { x: 0, y: 4 }),
        ]
    );
}

#[test]
fn a_range_over_several_rows_settles_on_none() {
    assert_eq!(range(0, 0, 1, 1).chunks_diff_from(&range(5, 5, 6, 6)), Vec::new());
    assert_eq!(
        range(0, 0, 1, 1).chunks_diff_from(&range(0, 1, 0, 1)),
        vec![CoordDiff::Removed(ChunkCoord { x: 0, y: 1 })]
    );
}

fn at(x: i32, y: i32) -> ChunkCoord {
    ChunkCoord { x, y }
}

fn key(c: ChunkCoord) -> u64 {
    chunk_key(c)
}

fn holds(world: &World, c: ChunkCoord, entity: u64) -> bool {
    world.chunks.get(&key(c)).unwrap().entity_hitbox.is_set(Entity(entity))
}

fn small_world() -> World {
    let mut world = World::default();
    world.generate(-1, -1);
    world.generate(0, -1);
    world.generate(-1, 0);
    world.generate(0, 0);
    world
}

#[test]
fn a_chunk_knows_its_entities() {
    let mut chunk = Chunk::new(3, -4);
    assert_eq!((chunk.x, chunk.y), (3, -4));
    assert!(!chunk.entity_hitbox.is_set(Entity(2)));
    chunk.add_entity(Entity(2));
    assert!(chunk.entity_hitbox.is_set(Entity(2)));
    chunk.remove_entity(&Entity(2));
    assert!(!chunk.entity_hitbox.is_set(Entity(2)));
}

#[test]
fn chunks_are_kept_under_their_position() {
    let world = small_world();
    assert_eq!(world.chunks.len(), 4);
    for c in [at(-1, -1), at(0, -1), at(-1, 0), at(0, 0)] {
        let chunk = world.chunks.get(&key(c)).unwrap();
        assert_eq!((chunk.x, chunk.y), (c.x, c.y));
    }
    assert!(world.chunks.get(&key(at(1, 0))).is_none());
    assert_eq!(key(at(i32::MIN, i32::MIN)), 0);
    assert_eq!(key(at(i32::MIN, i32::MIN + 1)), 1);
    assert_eq!(key(at(i32::MIN + 1, i32::MIN)), 0x1_0000_0000);
    assert_eq!(key(at(0, 0)), 0x8000_0000_8000_0000);
    assert_eq!(key(at(i32::MAX, i32::MAX)), u64::MAX);
}

#[test]
fn a_hitbox_marks_the_chunks_it_reaches() {
    let mut world = small_world();
    let hitbox = EntityHitbox { entity: Entity(7), range: range(0, -1, 5, 0) };
    world.add_hitbox(hitbox);
    assert!(holds(&world, at(0, -1), 7));
    assert!(holds(&world, at(0, 0), 7));
    assert!(!holds(&world, at(-1, -1), 7));
    assert!(!holds(&world, at(-1, 0), 7));
    assert_eq!(world.hitbox.get(&Entity(7)), Some(&hitbox));
    world.remove_hitbox(hitbox);
    assert!(!holds(&world, at(0, -1), 7));
    assert!(!holds(&world, at(0, 0), 7));
    assert_eq!(world.hitbox.get(&Entity(7)), None);
}

#[test]
fn a_moved_hitbox_changes_chunks_along_its_row() {
    let mut world = small_world();
    let before = EntityHitbox { entity: Entity(1), range: range(-1, 0, -1, 0) };
    let after = EntityHitbox { entity: Entity(1), range: range(0, 0, 0, 0) };
    world.add_hitbox(before);
    assert!(holds(&world, at(-1, 0), 1));
    world.update_hitbox(after);
    assert!(!holds(&world, at(-1, 0), 1));
    assert!(holds(&world, at(0, 0), 1));
    assert!(!holds(&world, at(0, -1), 1));
    assert_eq!(world.hitbox.get(&Entity(1)), Some(&before));
}

#[test]
fn a_spawned_entity_is_new_and_entered() {
    let mut world = small_world();
    let first = world.spawn_entity(range(0, 0, 0, 0));
    let second = world.spawn_entity(range(-1, -1, 0, 0));
    assert_eq!(first, Entity(0));
    assert_eq!(second, Entity(1));
    assert!(holds(&world, at(0, 0), 0));
    assert!(!holds(&world, at(-1, -1), 0));
    for c in [at(-1, -1), at(0, -1), at(-1, 0), at(0, 0)] {
        assert!(holds(&world, c, 1));
    }
    assert_eq!(
        world.hitbox.get(&second),
        Some(&EntityHitbox { entity: second, range: range(-1, -1, 0, 0) })
    );
}

#[test]
fn a_chunk_made_again_is_empty() {
    let mut world = small_world();
    world.add_hitbox(EntityHitbox { entity: Entity(3), range: range(0, 0, 0, 0) });
    assert!(holds(&world, at(0, 0), 3));
    world.generate(0, 0);
    assert!(!holds(&world, at(0, 0), 3));
    assert_eq!(world.chunks.len(), 4);
}

#[test]
fn tiles_are_laid_out_row_by_row() {
    assert_eq!(CHUNK_TILE_COUNT, CHUNK_TILE_WIDTH * CHUNK_TILE_HEIGHT);
    assert_eq!(TILE_SIZE_IN_PX, 32);
    assert_eq!(tile_origin(0), (0, 0));
    assert_eq!(tile_origin(1), (32, 0));
    assert_eq!(tile_origin(15), (480, 0));
    assert_eq!(tile_origin(16), (0, 32));
    assert_eq!(tile_origin(255), (480, 480));
}
