use aabb_quad_tree::bounds::{
    INDEX_BOTTOM_LEFT, INDEX_BOTTOM_RIGHT, INDEX_TOP_LEFT, INDEX_TOP_RIGHT,
};
use aabb_quad_tree::{Bounds, Coord};

/// The grid has a thousand cells to the unit.
fn grid(v: f64) -> i32 {
    (v * 1000.0).round() as i32
}

fn coord(x: f64, y: f64) -> Coord {
    Coord { x: grid(x), y: grid(y) }
}

fn cells(x0: i32, y0: i32, x1: i32, y1: i32) -> Bounds {
    Bounds {
        top_left: Coord { x: x0, y: y0 },
        bottom_right: Coord { x: x1, y: y1 },
    }
}

#[test]
fn validate_splits() {
    let bounds = Bounds {
        top_left: coord(0.0, 0.0),
        bottom_right: coord(100.0, 100.0),
    };

    assert_eq!(
        bounds.top_left(),
        Bounds {
            top_left: coord(0.0, 0.0),
            bottom_right: coord(50., 50.)
        }
    );
    assert_eq!(
        bounds.bottom_left(),
        Bounds {
            top_left: coord(0.0, 50.0),
            bottom_right: coord(50., 100.)
        }
    );
    assert_eq!(
        bounds.top_right(),
        Bounds {
            top_left: coord(50.0, 0.0),
            bottom_right: coord(100., 50.)
        }
    );
    assert_eq!(
        bounds.bottom_right(),
        Bounds {
            top_left: coord(50.0, 50.0),
            bottom_right: coord(100., 100.)
        }
    );
}

#[test]
fn sanity_check() {
    let bounds = Bounds {
        top_left: coord(500.0, 0.0),
        bottom_right: coord(1000.0, 500.0),
    };
    let point = coord(740.768493, 238.742157);

    let (sub_bounds, idx) = bounds.get_subsection(point);
    assert_eq!(
        sub_bounds,
        Bounds {
            top_left: coord(500.0, 0.0),
            bottom_right: coord(750.0, 250.0)
        }
    );
    assert_eq!(idx, INDEX_TOP_LEFT);
}

#[test]
fn splits_of_a_plain_square() {
    let bounds = cells(0, 0, 100, 100);
    assert_eq!(bounds.section_by_index(INDEX_TOP_LEFT), cells(0, 0, 50, 50));
    assert_eq!(bounds.section_by_index(INDEX_TOP_RIGHT), cells(50, 0, 100, 50));
    assert_eq!(bounds.section_by_index(INDEX_BOTTOM_LEFT), cells(0, 50, 50, 100));
    assert_eq!(bounds.section_by_index(INDEX_BOTTOM_RIGHT), cells(50, 50, 100, 100));
    assert_eq!(bounds.get_subsection_by_index(2), cells(0, 50, 50, 100));
}

#[test]
fn quadrant_indices_are_fixed() {
    assert_eq!(INDEX_TOP_LEFT, 0);
    assert_eq!(INDEX_TOP_RIGHT, 1);
    assert_eq!(INDEX_BOTTOM_LEFT, 2);
    assert_eq!(INDEX_BOTTOM_RIGHT, 3);
}

#[test]
fn midpoint_rounds_up() {
    assert_eq!(cells(0, 0, 4, 6).mid(), Coord { x: 2, y: 3 });
    assert_eq!(cells(0, 0, 5, 7).mid(), Coord { x: 3, y: 4 });
    assert_eq!(cells(-5, -7, 0, 0).mid(), Coord { x: -2, y: -3 });
    assert_eq!(cells(-1, -1, 0, 2).mid(), Coord { x: 0, y: 1 });
    assert_eq!(
        cells(i32::MIN, i32::MIN, i32::MAX, i32::MAX).mid(),
        Coord { x: 0, y: 0 }
    );
    assert_eq!(
        cells(i32::MAX - 1, 0, i32::MAX, 0).mid(),
        Coord { x: i32::MAX, y: 0 }
    );
    assert_eq!(cells(3, 3, 3, 3).mid(), Coord { x: 3, y: 3 });
    assert_eq!(cells(5, 0, 0, 5).mid(), Coord { x: 3, y: 3 });
}

#[test]
fn the_points_of_a_unit_cell_go_to_four_quadrants() {
    let cell = cells(7, 7, 8, 8);
    assert_eq!(cell.get_subsection_index(Coord { x: 7, y: 7 }), INDEX_TOP_LEFT);
    assert_eq!(cell.get_subsection_index(Coord { x: 8, y: 7 }), INDEX_TOP_RIGHT);
    assert_eq!(cell.get_subsection_index(Coord { x: 7, y: 8 }), INDEX_BOTTOM_LEFT);
    assert_eq!(cell.get_subsection_index(Coord { x: 8, y: 8 }), INDEX_BOTTOM_RIGHT);
}

#[test]
fn a_point_on_the_midpoint_goes_right_and_down() {
    let bounds = cells(0, 0, 100, 100);
    assert_eq!(bounds.get_subsection_index(Coord { x: 50, y: 50 }), INDEX_BOTTOM_RIGHT);
    assert_eq!(bounds.get_subsection_index(Coord { x: 49, y: 50 }), INDEX_BOTTOM_LEFT);
    assert_eq!(bounds.get_subsection_index(Coord { x: 50, y: 49 }), INDEX_TOP_RIGHT);
    assert_eq!(bounds.get_subsection_index(Coord { x: 49, y: 49 }), INDEX_TOP_LEFT);
}

#[test]
fn points_outside_are_routed_by_the_midpoint_too() {
    let bounds = cells(0, 0, 100, 100);
    assert_eq!(bounds.get_subsection_index(Coord { x: -7, y: 300 }), INDEX_BOTTOM_LEFT);
    assert_eq!(bounds.get_subsection_index(Coord { x: 300, y: -7 }), INDEX_TOP_RIGHT);
}

#[test]
fn corners_come_clockwise_from_the_top_left() {
    assert_eq!(
        cells(1, 2, 3, 4).corners(),
        [
            Coord { x: 1, y: 2 },
            Coord { x: 3, y: 2 },
            Coord { x: 3, y: 4 },
            Coord { x: 1, y: 4 },
        ]
    );
}

#[test]
fn width_and_height_never_overflow() {
    assert_eq!(cells(10, 20, 110, 70).width(), 100);
    assert_eq!(cells(10, 20, 110, 70).height(), 50);
    assert_eq!(cells(i32::MIN, 0, i32::MAX, 0).width(), 4294967295);
    assert_eq!(cells(0, i32::MAX, 0, i32::MIN).height(), -4294967295);
}

#[test]
fn a_rectangle_of_one_cell_is_not_divisible() {
    assert!(cells(0, 0, 2, 0).divisible());
    assert!(cells(0, 0, 0, 2).divisible());
    assert!(cells(0, 0, 1, 2).divisible());
    assert!(!cells(0, 0, 1, 1).divisible());
    assert!(!cells(5, 5, 5, 5).divisible());
    assert!(!cells(0, 0, 1, 0).divisible());
    assert_eq!(cells(7, 7, 8, 8).top_left(), cells(7, 7, 8, 8));
    assert_eq!(cells(7, 7, 8, 8).bottom_right(), cells(8, 8, 8, 8));
}

#[test]
fn containment_counts_the_borders() {
    let outer = cells(0, 0, 100, 100);
    assert!(outer.contains(&cells(0, 0, 100, 100)));
    assert!(outer.contains(&cells(10, 10, 20, 20)));
    assert!(!outer.contains(&cells(-1, 10, 20, 20)));
    assert!(!outer.contains(&cells(10, -1, 20, 20)));
    assert!(!outer.contains(&cells(10, 10, 101, 20)));
    assert!(!outer.contains(&cells(10, 10, 20, 101)));
    assert!(!outer.contains(&cells(200, 10, 20, 20)));
}

#[test]
fn broadcast_fills_both_coordinates() {
    assert_eq!(Coord::broadcast(7), Coord { x: 7, y: 7 });
}

#[test]
fn coordinates_add_subtract_and_divide() {
    let a = Coord { x: 7, y: -3 };
    let b = Coord { x: -2, y: 10 };
    assert_eq!(a + b, Coord { x: 5, y: 7 });
    assert_eq!(a - b, Coord { x: 9, y: -13 });
    assert_eq!(a / 2, Coord { x: 3, y: -1 });
    assert_eq!(a / -2, Coord { x: -3, y: 1 });
    assert_eq!(Coord { x: i32::MIN, y: i32::MAX } / 1, Coord { x: i32::MIN, y: i32::MAX });
    assert_eq!(Coord { x: i32::MIN + 1, y: i32::MAX } / -1, Coord { x: i32::MAX, y: -i32::MAX });
    assert_eq!(Coord { x: -7, y: 7 } / 7, Coord { x: -1, y: 1 });
    assert_eq!(Coord { x: -6, y: 6 } / 7, Coord { x: 0, y: 0 });
}

#[test]
fn the_midpoint_is_the_corner_plus_half_the_way() {
    let bounds = cells(10, 20, 110, 72);
    let half = (bounds.bottom_right - bounds.top_left) / 2;
    assert_eq!(bounds.top_left + half, bounds.mid());
    assert_eq!(bounds.mid(), Coord { x: 60, y: 46 });
}
