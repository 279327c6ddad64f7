use aabb_quad_tree::entity::{Entities, Entity, EntityBitVec, EntityMap, EntityVec};

#[test]
fn entity_vec_sets_and_gets() {
    let mut v: EntityVec<&str> = EntityVec::default();
    assert_eq!(v.get(&Entity(0)), None);
    assert_eq!(v.set(Entity(3), "three"), None);
    assert_eq!(v.set(Entity(1), "one"), None);
    assert_eq!(v.get(&Entity(3)), Some(&"three"));
    assert_eq!(v.get(&Entity(1)), Some(&"one"));
    assert_eq!(v.get(&Entity(0)), None);
    assert_eq!(v.get(&Entity(2)), None);
    assert_eq!(v.get(&Entity(4)), None);
    assert_eq!(v.get(&Entity(u64::MAX)), None);
    assert_eq!(v.set(Entity(3), "drei"), Some("three"));
    assert_eq!(v.get(&Entity(3)), Some(&"drei"));
}

#[test]
fn entity_vec_changes_in_place() {
    let mut v: EntityVec<u32> = EntityVec::default();
    v.set(Entity(2), 20);
    match v.get_mut(&Entity(2)) {
        Some(val) => *val += 1,
        None => panic!("the property is gone"),
    }
    assert_eq!(v.get(&Entity(2)), Some(&21));
    assert!(v.get_mut(&Entity(1)).is_none());
    assert!(v.get_mut(&Entity(7)).is_none());
}

#[test]
fn entity_vec_removes_and_returns() {
    let mut v: EntityVec<u32> = EntityVec::default();
    v.set(Entity(0), 10);
    v.set(Entity(5), 50);
    assert_eq!(v.remove(&Entity(3)), None);
    assert_eq!(v.remove(&Entity(9)), None);
    assert_eq!(v.remove(&Entity(5)), Some(50));
    assert_eq!(v.remove(&Entity(5)), None);
    assert_eq!(v.get(&Entity(0)), Some(&10));
    assert_eq!(v.remove(&Entity(0)), Some(10));
    assert_eq!(v.iter(), Vec::new());
}

#[test]
fn entity_vec_lists_in_the_order_of_the_numbers() {
    let mut v: EntityVec<u32> = EntityVec::default();
    v.set(Entity(4), 40);
    v.set(Entity(1), 10);
    v.set(Entity(2), 20);
    v.remove(&Entity(2));
    assert_eq!(v.iter(), vec![(Entity(1), &10), (Entity(4), &40)]);
}

#[test]
fn entity_map_sets_removes_and_lists() {
    let mut m: EntityMap<String> = EntityMap::default();
    assert_eq!(m.set(Entity(7), String::from("seven")), None);
    assert_eq!(m.set(Entity(u64::MAX), String::from("last")), None);
    assert_eq!(m.set(Entity(7), String::from("sieben")), Some(String::from("seven")));
    let mut pairs: Vec<(u64, String)> =
        m.iter().into_iter().map(|(e, s)| (e.0, s.clone())).collect();
    pairs.sort();
    assert_eq!(
        pairs,
        vec![(7, String::from("sieben")), (u64::MAX, String::from("last"))]
    );
    assert_eq!(m.remove(&Entity(7)), Some(String::from("sieben")));
    assert_eq!(m.remove(&Entity(7)), None);
    assert_eq!(m.iter().len(), 1);
}

#[test]
fn entity_bitvec_sets_and_clears() {
    let mut b = EntityBitVec::default();
    assert!(!b.is_set(Entity(0)));
    b.set(Entity(70));
    b.set(Entity(3));
    assert!(b.is_set(Entity(70)));
    assert!(b.is_set(Entity(3)));
    assert!(!b.is_set(Entity(4)));
    assert!(!b.is_set(Entity(71)));
    assert!(!b.is_set(Entity(u64::MAX)));
    b.remove(&Entity(70));
    assert!(!b.is_set(Entity(70)));
    assert!(b.is_set(Entity(3)));
    b.remove(&Entity(1000));
    b.remove(&Entity(u64::MAX));
    b.remove(&Entity(3));
    assert!(!b.is_set(Entity(3)));
    b.set(Entity(3));
    assert!(b.is_set(Entity(3)));
}

#[test]
fn entities_hand_out_new_numbers_in_turn() {
    let mut entities = Entities::default();
    assert_eq!(entities.create(), Entity(0));
    assert_eq!(entities.create(), Entity(1));
    assert_eq!(entities.create(), Entity(2));
}

#[test]
fn entities_reuse_the_largest_number_taken_back() {
    let mut entities = Entities::default();
    for i in 0..5 {
        assert_eq!(entities.create(), Entity(i));
    }
    entities.reclaim(Entity(1));
    entities.reclaim(Entity(3));
    assert_eq!(entities.create(), Entity(3));
    assert_eq!(entities.create(), Entity(1));
    assert_eq!(entities.create(), Entity(5));
    entities.reclaim(Entity(5));
    entities.reclaim(Entity(4));
    assert_eq!(entities.create(), Entity(5));
    assert_eq!(entities.create(), Entity(4));
    assert_eq!(entities.create(), Entity(6));
}

#[test]
fn entity_map_changes_in_place() {
    let mut m: EntityMap<u32> = EntityMap::default();
    assert!(m.get_mut(&Entity(4)).is_none());
    m.set(Entity(4), 40);
    m.set(Entity(9), 90);
    match m.get_mut(&Entity(4)) {
        Some(val) => *val += 2,
        None => panic!("the property is gone"),
    }
    assert!(m.get_mut(&Entity(5)).is_none());
    let mut pairs: Vec<(u64, u32)> = m.iter().into_iter().map(|(e, v)| (e.0, *v)).collect();
    pairs.sort();
    assert_eq!(pairs, vec![(4, 42), (9, 90)]);
    assert_eq!(m.remove(&Entity(4)), Some(42));
}
