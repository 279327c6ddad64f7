use aabb_quad_tree::node::Node;
use aabb_quad_tree::quad::{NodeInner, LEAF_CAPACITY};
use aabb_quad_tree::{Bounds, Coord, InsertError};

fn region() -> Bounds {
    Bounds {
        top_left: Coord { x: 0, y: 0 },
        bottom_right: Coord { x: 100, y: 100 },
    }
}

fn entry(id: u64, x: i32, y: i32) -> NodeInner {
    NodeInner { id, coord: Coord { x, y } }
}

fn regions_of(node: &Node, region: Bounds) -> Vec<Bounds> {
    let mut rects = Vec::new();
    node.regions(region, &mut rects);
    rects
}

#[test]
fn the_leaf_capacity_is_sixteen() {
    assert_eq!(LEAF_CAPACITY, 16);
}

#[test]
fn a_new_node_is_an_empty_leaf() {
    let node = Node::new();
    assert_eq!(node, Node::Leaf(Vec::new()));
    assert!(node.is_empty());
    assert_eq!(node.point_count(), 0);
    assert_eq!(Node::default(), Node::Leaf(Vec::new()));
}

#[test]
fn a_leaf_keeps_its_entries_in_the_order_of_insertion() {
    let mut node = Node::new();
    assert_eq!(node.insert(entry(1, 80, 80), region()), Ok(()));
    assert_eq!(node.insert(entry(2, 10, 10), region()), Ok(()));
    assert_eq!(node.insert(entry(3, 80, 10), region()), Ok(()));
    assert_eq!(
        node,
        Node::Leaf(vec![entry(1, 80, 80), entry(2, 10, 10), entry(3, 80, 10)])
    );
    assert!(!node.is_empty());
}

#[test]
fn one_entry_more_than_a_leaf_holds_splits_it_once() {
    let mut node = Node::new();
    let mut inserted = Vec::new();
    for i in 0..16 {
        let e = entry(i as u64, (i % 4) * 25 + 5, (i / 4) * 25 + 5);
        assert_eq!(node.insert(e, region()), Ok(()));
        inserted.push(e);
    }
    assert_eq!(node, Node::Leaf(inserted.clone()));
    assert_eq!(node.insert(entry(16, 99, 99), region()), Ok(()));
    assert_eq!(node.point_count(), 17);
    let by_quadrant = |xs: [usize; 4]| -> Vec<NodeInner> {
        xs.iter().map(|i| inserted[*i]).collect()
    };
    let mut last = by_quadrant([10, 11, 14, 15]);
    last.push(entry(16, 99, 99));
    assert_eq!(
        node,
        Node::Internal(vec![
            Node::Leaf(by_quadrant([0, 1, 4, 5])),
            Node::Leaf(by_quadrant([2, 3, 6, 7])),
            Node::Leaf(by_quadrant([8, 9, 12, 13])),
            Node::Leaf(last),
        ])
    );
    assert_eq!(
        regions_of(&node, region()),
        vec![
            region(),
            Bounds { top_left: Coord { x: 0, y: 0 }, bottom_right: Coord { x: 50, y: 50 } },
            Bounds { top_left: Coord { x: 50, y: 0 }, bottom_right: Coord { x: 100, y: 50 } },
            Bounds { top_left: Coord { x: 0, y: 50 }, bottom_right: Coord { x: 50, y: 100 } },
            Bounds { top_left: Coord { x: 50, y: 50 }, bottom_right: Coord { x: 100, y: 100 } },
        ]
    );
}

#[test]
fn entries_in_one_quadrant_split_until_they_come_apart() {
    let mut node = Node::new();
    for i in 0..16 {
        assert_eq!(node.insert(entry(i, 1, 1), region()), Ok(()));
    }
    assert_eq!(node.insert(entry(16, 20, 20), region()), Ok(()));
    assert_eq!(node.point_count(), 17);
    // (1, 1) and (20, 20) share the top-left quadrant of 0..100 and of 0..50,
    // and part ways in 0..25, whose midpoint is 13.
    assert_eq!(regions_of(&node, region()).len(), 13);
    match &node {
        Node::Internal(children) => match &children[0] {
            Node::Internal(children) => match &children[0] {
                Node::Internal(children) => {
                    assert_eq!(children[0].point_count(), 16);
                    assert_eq!(children[3], Node::Leaf(vec![entry(16, 20, 20)]));
                }
                Node::Leaf(_) => panic!("the second level was not split"),
            },
            Node::Leaf(_) => panic!("the first level was not split"),
        },
        Node::Leaf(_) => panic!("the root was not split"),
    }
}

#[test]
fn coincident_points_beyond_the_capacity_are_refused() {
    let mut node = Node::new();
    for i in 0..16 {
        assert_eq!(node.insert(entry(i, 30, 30), region()), Ok(()));
    }
    let before = regions_of(&node, region());
    assert_eq!(
        node.insert(entry(16, 30, 30), region()),
        Err(InsertError::CoincidentPoints)
    );
    assert_eq!(node.point_count(), 16);
    assert_eq!(regions_of(&node, region()), before);
    assert_eq!(node.insert(entry(17, 31, 30), region()), Ok(()));
    assert_eq!(node.point_count(), 17);
}

#[test]
fn neighbours_on_the_grid_are_separated() {
    let mut node = Node::new();
    for i in 0..16 {
        assert_eq!(node.insert(entry(i, 99 + (i % 2) as i32, 100), region()), Ok(()));
    }
    assert_eq!(node.insert(entry(16, 99, 100), region()), Ok(()));
    assert_eq!(node.insert(entry(17, 100, 100), region()), Ok(()));
    assert_eq!(node.point_count(), 18);
}

fn unit_cell() -> Bounds {
    Bounds {
        top_left: Coord { x: 0, y: 0 },
        bottom_right: Coord { x: 1, y: 1 },
    }
}

#[test]
fn a_unit_cell_separates_its_corners() {
    let mut node = Node::new();
    let mut first = Vec::new();
    for i in 0..16 {
        assert_eq!(node.insert(entry(i, 0, 0), unit_cell()), Ok(()));
        first.push(entry(i, 0, 0));
    }
    assert_eq!(node.insert(entry(16, 1, 1), unit_cell()), Ok(()));
    assert_eq!(
        node,
        Node::Internal(vec![
            Node::Leaf(first),
            Node::Leaf(Vec::new()),
            Node::Leaf(Vec::new()),
            Node::Leaf(vec![entry(16, 1, 1)]),
        ])
    );
    assert_eq!(node.insert(entry(17, 0, 0), unit_cell()), Err(InsertError::CoincidentPoints));
    assert_eq!(node.insert(entry(17, 1, 0), unit_cell()), Ok(()));
    assert_eq!(node.point_count(), 18);
}

#[test]
fn a_region_that_cannot_be_halved_is_split_once() {
    let mut node = Node::new();
    let mut first = Vec::new();
    for i in 0..16 {
        assert_eq!(node.insert(entry(i, -5, -5), unit_cell()), Ok(()));
        first.push(entry(i, -5, -5));
    }
    assert_eq!(node.insert(entry(16, 5, 5), unit_cell()), Ok(()));
    assert_eq!(
        node,
        Node::Internal(vec![
            Node::Leaf(first),
            Node::Leaf(Vec::new()),
            Node::Leaf(Vec::new()),
            Node::Leaf(vec![entry(16, 5, 5)]),
        ])
    );
}

#[test]
fn points_outside_a_region_that_cannot_be_halved_may_stay_together() {
    let mut node = Node::new();
    for i in 0..16 {
        assert_eq!(node.insert(entry(i, 5, 5), unit_cell()), Ok(()));
    }
    let before = regions_of(&node, unit_cell());
    assert_eq!(node.insert(entry(16, 6, 6), unit_cell()), Err(InsertError::CoincidentPoints));
    assert_eq!(node.point_count(), 16);
    assert_eq!(regions_of(&node, unit_cell()), before);
    assert_eq!(node.insert(entry(16, 6, -6), unit_cell()), Ok(()));
}

#[test]
fn removal_deletes_every_entry_of_the_entity_in_the_leaf() {
    let mut node = Node::new();
    assert_eq!(node.insert(entry(1, 10, 10), region()), Ok(()));
    assert_eq!(node.insert(entry(2, 10, 10), region()), Ok(()));
    assert_eq!(node.insert(entry(1, 20, 20), region()), Ok(()));
    node.remove(1, Coord { x: 10, y: 10 }, region());
    assert_eq!(node, Node::Leaf(vec![entry(2, 10, 10)]));
    node.remove(7, Coord { x: 10, y: 10 }, region());
    assert_eq!(node, Node::Leaf(vec![entry(2, 10, 10)]));
}

#[test]
fn removal_looks_only_where_the_point_is_routed() {
    let mut node = Node::new();
    for i in 0..17 {
        let e = entry(i as u64, (i % 4) * 25 + 5, (i / 4) * 20 + 5);
        assert_eq!(node.insert(e, region()), Ok(()));
    }
    node.remove(0, Coord { x: 90, y: 90 }, region());
    assert_eq!(node.point_count(), 17);
    node.remove(0, Coord { x: 5, y: 5 }, region());
    assert_eq!(node.point_count(), 16);
}

#[test]
fn removing_everything_collapses_the_tree() {
    let mut node = Node::new();
    let mut inserted = Vec::new();
    for i in 0..40 {
        let e = entry(i as u64, (i * 7) % 100, (i * 13) % 100);
        assert_eq!(node.insert(e, region()), Ok(()));
        inserted.push(e);
    }
    assert_eq!(node.point_count(), 40);
    assert!(regions_of(&node, region()).len() > 1);
    for (n, e) in inserted.iter().enumerate() {
        node.remove(e.id, e.coord, region());
        assert_eq!(node.point_count(), 39 - n);
    }
    assert_eq!(node, Node::Leaf(Vec::new()));
    assert_eq!(regions_of(&node, region()), vec![region()]);
}

#[test]
fn a_batch_goes_in_as_its_entries_do_one_by_one() {
    let batch = vec![entry(9, 10, 10), entry(9, 90, 10), entry(9, 90, 90), entry(9, 10, 90)];
    let mut one_by_one = Node::new();
    let mut at_once = Node::new();
    for i in 0..15 {
        let e = entry(i as u64, (i * 7) % 100, (i * 13) % 100);
        assert_eq!(one_by_one.insert(e, region()), Ok(()));
        assert_eq!(at_once.insert(e, region()), Ok(()));
    }
    assert!(at_once.accepts_all(&batch, region()));
    at_once.insert_all(&batch, region());
    for e in batch.iter() {
        assert_eq!(one_by_one.insert(*e, region()), Ok(()));
    }
    assert_eq!(at_once, one_by_one);
    assert_eq!(at_once.point_count(), 19);
}

#[test]
fn a_batch_is_refused_as_a_whole() {
    let mut node = Node::new();
    for i in 0..14 {
        assert_eq!(node.insert(entry(i, 30, 30), region()), Ok(()));
    }
    let fits = vec![entry(20, 30, 30), entry(20, 30, 30)];
    let too_many = vec![entry(21, 30, 30), entry(21, 30, 30), entry(21, 30, 30)];
    assert!(node.accepts_all(&fits, region()));
    assert!(!node.accepts_all(&too_many, region()));
    assert!(node.accepts_all(&Vec::new(), region()));
    assert_eq!(node.point_count(), 14);
}
