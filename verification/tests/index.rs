use aabb_quad_tree::{AABBQuadTree, Bounds, Coord, InsertError, AABB};

#[derive(Clone, Debug)]
struct Rect {
    id: u64,
    bounds: Bounds,
}

impl AABB for Rect {
    fn spec_bounds(&self) -> Bounds {
        self.bounds
    }

    fn spec_id(&self) -> u64 {
        self.id
    }

    fn bounds(&self) -> Bounds {
        self.bounds
    }

    fn id(&self) -> u64 {
        self.id
    }
}

fn cells(x0: i32, y0: i32, x1: i32, y1: i32) -> Bounds {
    Bounds {
        top_left: Coord { x: x0, y: y0 },
        bottom_right: Coord { x: x1, y: y1 },
    }
}

fn rect(id: u64, x0: i32, y0: i32, x1: i32, y1: i32) -> Rect {
    Rect { id, bounds: cells(x0, y0, x1, y1) }
}

fn universe() -> Bounds {
    cells(0, 0, 100, 100)
}

#[test]
fn a_new_index_is_empty() {
    let tree: AABBQuadTree<Rect> = AABBQuadTree::new(universe());
    assert_eq!(tree.dbg_entity_count(), 0);
    assert_eq!(tree.dbg_point_count(), 0);
    assert_eq!(tree.dbg_rectangles(), vec![universe()]);
}

#[test]
fn insert_then_remove_leaves_the_tree_empty() {
    let mut tree: AABBQuadTree<Rect> = AABBQuadTree::new(universe());
    let r = rect(1, 10, 10, 20, 20);
    assert_eq!(tree.insert(r.clone()), Ok(()));
    assert_eq!(tree.dbg_entity_count(), 1);
    assert_eq!(tree.dbg_point_count(), 4);
    tree.remove(&r);
    assert_eq!(tree.dbg_entity_count(), 0);
    assert_eq!(tree.dbg_point_count(), 0);
    assert_eq!(tree.dbg_rectangles(), vec![universe()]);
}

#[test]
fn every_entity_leaves_four_points() {
    let mut tree: AABBQuadTree<Rect> = AABBQuadTree::new(universe());
    for i in 0..50 {
        let x = (i * 7) % 90;
        let y = (i * 13) % 90;
        assert_eq!(tree.insert(rect(i as u64, x, y, x + 5, y + 10)), Ok(()));
        assert_eq!(tree.dbg_entity_count(), i as usize + 1);
        assert_eq!(tree.dbg_point_count(), 4 * (i as usize + 1));
    }
}

#[test]
fn a_box_outside_the_universe_is_refused() {
    let mut tree: AABBQuadTree<Rect> = AABBQuadTree::new(universe());
    assert_eq!(tree.insert(rect(1, 90, 90, 101, 95)), Err(InsertError::OutOfBounds));
    assert_eq!(tree.insert(rect(1, 90, 90, 95, 101)), Err(InsertError::OutOfBounds));
    assert_eq!(tree.insert(rect(1, -1, 90, 95, 95)), Err(InsertError::OutOfBounds));
    assert_eq!(tree.insert(rect(1, 90, -1, 95, 95)), Err(InsertError::OutOfBounds));
    assert_eq!(tree.dbg_entity_count(), 0);
    assert_eq!(tree.dbg_point_count(), 0);
    assert_eq!(tree.insert(rect(1, 0, 0, 100, 100)), Ok(()));
}

#[test]
fn the_fifth_box_on_one_spot_is_refused() {
    let mut tree: AABBQuadTree<Rect> = AABBQuadTree::new(universe());
    for i in 0..4 {
        assert_eq!(tree.insert(rect(i, 40, 40, 40, 40)), Ok(()));
    }
    assert_eq!(tree.dbg_point_count(), 16);
    assert_eq!(tree.insert(rect(4, 40, 40, 40, 40)), Err(InsertError::CoincidentPoints));
    assert_eq!(tree.dbg_entity_count(), 4);
    assert_eq!(tree.dbg_point_count(), 16);
    assert_eq!(tree.dbg_rectangles(), vec![universe()]);
}

#[test]
fn a_refused_box_leaves_no_corner_behind() {
    let mut tree: AABBQuadTree<Rect> = AABBQuadTree::new(universe());
    for i in 0..3 {
        assert_eq!(tree.insert(rect(i, 100, 100, 100, 100)), Ok(()));
    }
    assert_eq!(tree.insert(rect(3, 100, 90, 100, 100)), Ok(()));
    assert_eq!(tree.insert(rect(4, 100, 90, 100, 100)), Ok(()));
    // Sixteen points lie on (100, 100) now, and four on (100, 90). The first
    // two corners of the next box would go in, its third would be the
    // seventeenth point on (100, 100).
    let before = tree.dbg_rectangles();
    assert_eq!(tree.dbg_point_count(), 20);
    assert_eq!(tree.insert(rect(5, 100, 10, 100, 100)), Err(InsertError::CoincidentPoints));
    assert_eq!(tree.dbg_entity_count(), 5);
    assert_eq!(tree.dbg_point_count(), 20);
    assert_eq!(tree.dbg_rectangles(), before);
    assert_eq!(tree.insert(rect(5, 100, 10, 100, 90)), Ok(()));
    assert_eq!(tree.dbg_point_count(), 24);
}

#[test]
fn neighbouring_boxes_are_told_apart() {
    let mut tree: AABBQuadTree<Rect> = AABBQuadTree::new(universe());
    for i in 0..4 {
        assert_eq!(tree.insert(rect(i, 99, 100, 99, 100)), Ok(()));
    }
    for i in 4..8 {
        assert_eq!(tree.insert(rect(i, 100, 100, 100, 100)), Ok(()));
    }
    assert_eq!(tree.dbg_point_count(), 32);
    assert_eq!(tree.insert(rect(8, 99, 100, 100, 100)), Err(InsertError::CoincidentPoints));
    assert_eq!(tree.insert(rect(8, 98, 99, 98, 99)), Ok(()));
    assert_eq!(tree.dbg_point_count(), 36);
}

#[test]
fn seventeen_points_split_the_root_once() {
    let mut tree: AABBQuadTree<Rect> = AABBQuadTree::new(universe());
    for i in 0..4 {
        assert_eq!(tree.insert(rect(i, 10, 10, 90, 90)), Ok(()));
    }
    assert_eq!(tree.dbg_rectangles(), vec![universe()]);
    assert_eq!(tree.insert(rect(4, 20, 20, 80, 80)), Ok(()));
    assert_eq!(tree.dbg_entity_count(), 5);
    assert_eq!(tree.dbg_point_count(), 20);
    assert_eq!(
        tree.dbg_rectangles(),
        vec![
            universe(),
            cells(0, 0, 50, 50),
            cells(50, 0, 100, 50),
            cells(0, 50, 50, 100),
            cells(50, 50, 100, 100),
        ]
    );
}

#[test]
fn removing_every_entity_collapses_the_tree() {
    let mut tree: AABBQuadTree<Rect> = AABBQuadTree::new(universe());
    let mut stored = Vec::new();
    for i in 0..30 {
        let x = (i * 11) % 90;
        let y = (i * 17) % 90;
        let r = rect(i as u64, x, y, x + 3, y + 4);
        assert_eq!(tree.insert(r.clone()), Ok(()));
        stored.push(r);
    }
    assert!(tree.dbg_rectangles().len() > 1);
    for (n, r) in stored.iter().enumerate() {
        tree.remove(r);
        assert_eq!(tree.dbg_entity_count(), 29 - n);
        assert_eq!(tree.dbg_point_count(), 4 * (29 - n));
    }
    assert_eq!(tree.dbg_rectangles(), vec![universe()]);
}

#[test]
fn removing_what_is_not_stored_changes_nothing() {
    let mut tree: AABBQuadTree<Rect> = AABBQuadTree::new(universe());
    assert_eq!(tree.insert(rect(1, 10, 10, 20, 20)), Ok(()));
    tree.remove(&rect(2, 10, 10, 20, 20));
    assert_eq!(tree.dbg_entity_count(), 1);
    assert_eq!(tree.dbg_point_count(), 4);
}

#[test]
fn removal_goes_by_the_stored_box() {
    let mut tree: AABBQuadTree<Rect> = AABBQuadTree::new(universe());
    for i in 0..5 {
        assert_eq!(tree.insert(rect(i, 10, 10, 90, 90)), Ok(()));
    }
    tree.remove(&rect(0, 55, 55, 60, 60));
    assert_eq!(tree.dbg_entity_count(), 4);
    assert_eq!(tree.dbg_point_count(), 16);
}

#[test]
fn a_second_insert_under_one_identity_keeps_the_old_corners() {
    let mut tree: AABBQuadTree<Rect> = AABBQuadTree::new(universe());
    assert_eq!(tree.insert(rect(1, 10, 10, 20, 20)), Ok(()));
    assert_eq!(tree.insert(rect(1, 30, 30, 40, 40)), Ok(()));
    assert_eq!(tree.dbg_entity_count(), 1);
    assert_eq!(tree.dbg_point_count(), 8);
}
