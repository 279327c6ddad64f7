//! Points and axis-aligned rectangles on an integer grid.
//!
//! A rectangle is split at its midpoint into four quadrants. Every point is
//! assigned to exactly one quadrant by comparing it with the midpoint on each
//! axis, and that assignment is what routes a point through the tree.

use vstd::prelude::*;

verus! {

/// Index of the quadrant left of and above the midpoint.
pub const INDEX_TOP_LEFT: usize = 0;

/// Index of the quadrant right of and above the midpoint.
pub const INDEX_TOP_RIGHT: usize = 1;

/// Index of the quadrant left of and below the midpoint.
pub const INDEX_BOTTOM_LEFT: usize = 2;

/// Index of the quadrant right of and below the midpoint.
pub const INDEX_BOTTOM_RIGHT: usize = 3;

/// The average of two integers, rounded up: of two neighbouring integers
/// it is the larger, so that each of them lies on its own side of it.
pub open spec fn midpoint(a: int, b: int) -> int {
    (a + b + 1) / 2
}

/// The distance between two integers.
pub open spec fn distance(a: int, b: int) -> nat {
    if a <= b {
        (b - a) as nat
    } else {
        (a - b) as nat
    }
}

/// A point of the grid.
#[derive(Copy, Clone, Debug, PartialEq, Eq, Hash, Structural)]
pub struct Coord {
    pub x: i32,
    pub y: i32,
}

impl Coord {
    /// The point with both coordinates equal to `n`.
    pub fn broadcast(n: i32) -> (c: Coord)
        ensures
            c == (Coord { x: n, y: n }),
    {
        Coord { x: n, y: n }
    }
}

impl Coord {
    /// Both coordinates of the sum of `self` and `other` are coordinates.
    pub open spec fn can_add(self, other: Coord) -> bool {
        &&& i32::MIN <= self.x + other.x <= i32::MAX
        &&& i32::MIN <= self.y + other.y <= i32::MAX
    }

    /// Both coordinates of the difference of `self` and `other` are
    /// coordinates.
    pub open spec fn can_sub(self, other: Coord) -> bool {
        &&& i32::MIN <= self.x - other.x <= i32::MAX
        &&& i32::MIN <= self.y - other.y <= i32::MAX
    }

    /// The quotient of `a` by `b`, rounded towards zero.
    pub open spec fn quotient(a: int, b: int) -> int {
        if a >= 0 && b > 0 {
            a / b
        } else if a >= 0 {
            -(a / (-b))
        } else if b > 0 {
            -((-a) / b)
        } else {
            (-a) / (-b)
        }
    }
}

impl std::ops::Add for Coord {
    type Output = Coord;

    fn add(self, other: Coord) -> Coord {
        Coord { x: self.x + other.x, y: self.y + other.y }
    }
}

impl vstd::std_specs::ops::AddSpecImpl for Coord {
    open spec fn obeys_add_spec() -> bool {
        true
    }

    open spec fn add_req(self, other: Coord) -> bool {
        self.can_add(other)
    }

    open spec fn add_spec(self, other: Coord) -> Coord {
        Coord { x: (self.x + other.x) as i32, y: (self.y + other.y) as i32 }
    }
}

impl std::ops::Sub for Coord {
    type Output = Coord;

    fn sub(self, other: Coord) -> Coord {
        Coord { x: self.x - other.x, y: self.y - other.y }
    }
}

impl vstd::std_specs::ops::SubSpecImpl for Coord {
    open spec fn obeys_sub_spec() -> bool {
        true
    }

    open spec fn sub_req(self, other: Coord) -> bool {
        self.can_sub(other)
    }

    open spec fn sub_spec(self, other: Coord) -> Coord {
        Coord { x: (self.x - other.x) as i32, y: (self.y - other.y) as i32 }
    }
}

impl std::ops::Div<i32> for Coord {
    type Output = Coord;

    fn div(self, factor: i32) -> Coord {
        Coord { x: divide(self.x, factor), y: divide(self.y, factor) }
    }
}

impl vstd::std_specs::ops::DivSpecImpl<i32> for Coord {
    open spec fn obeys_div_spec() -> bool {
        true
    }

    open spec fn div_req(self, factor: i32) -> bool {
        factor != 0 && (factor != -1 || (self.x != i32::MIN && self.y != i32::MIN))
    }

    open spec fn div_spec(self, factor: i32) -> Coord {
        Coord {
            x: Coord::quotient(self.x as int, factor as int) as i32,
            y: Coord::quotient(self.y as int, factor as int) as i32,
        }
    }
}

/// An axis-aligned rectangle, given by its corner with the smallest
/// coordinates and its corner with the largest ones.
#[derive(Copy, Clone, Debug, PartialEq, Eq, Hash, Structural)]
pub struct Bounds {
    pub top_left: Coord,
    pub bottom_right: Coord,
}

impl Bounds {
    /// The top-left corner is neither right of nor below the bottom-right one.
    pub open spec fn wf(self) -> bool {
        &&& self.top_left.x <= self.bottom_right.x
        &&& self.top_left.y <= self.bottom_right.y
    }

    /// The point lies inside the rectangle, borders included.
    pub open spec fn has_point(self, c: Coord) -> bool {
        &&& self.top_left.x <= c.x <= self.bottom_right.x
        &&& self.top_left.y <= c.y <= self.bottom_right.y
    }

    /// Both defining corners of `inner` lie inside this rectangle.
    pub open spec fn spec_contains(self, inner: Bounds) -> bool {
        &&& self.has_point(inner.top_left)
        &&& self.has_point(inner.bottom_right)
    }

    pub open spec fn spec_width(self) -> int {
        self.bottom_right.x - self.top_left.x
    }

    pub open spec fn spec_height(self) -> int {
        self.bottom_right.y - self.top_left.y
    }

    /// The arithmetic midpoint, rounded up on each axis.
    pub open spec fn spec_mid(&self) -> Coord {
        Coord {
            x: midpoint(self.top_left.x as int, self.bottom_right.x as int) as i32,
            y: midpoint(self.top_left.y as int, self.bottom_right.y as int) as i32,
        }
    }

    /// The four corners: top-left, top-right, bottom-right, bottom-left.
    pub open spec fn spec_corners(self) -> Seq<Coord> {
        seq![
            self.top_left,
            Coord { x: self.bottom_right.x, y: self.top_left.y },
            self.bottom_right,
            Coord { x: self.top_left.x, y: self.bottom_right.y },
        ]
    }

    pub open spec fn spec_top_left(&self) -> Bounds {
        Bounds { top_left: self.top_left, bottom_right: self.spec_mid() }
    }

    pub open spec fn spec_top_right(&self) -> Bounds {
        Bounds {
            top_left: Coord { x: self.spec_mid().x, y: self.top_left.y },
            bottom_right: Coord { x: self.bottom_right.x, y: self.spec_mid().y },
        }
    }

    pub open spec fn spec_bottom_left(&self) -> Bounds {
        Bounds {
            top_left: Coord { x: self.top_left.x, y: self.spec_mid().y },
            bottom_right: Coord { x: self.spec_mid().x, y: self.bottom_right.y },
        }
    }

    pub open spec fn spec_bottom_right(&self) -> Bounds {
        Bounds { top_left: self.spec_mid(), bottom_right: self.bottom_right }
    }

    /// The quadrant with the given index; the rectangle itself for an index
    /// that names no quadrant.
    pub open spec fn quadrant(self, index: int) -> Bounds {
        if index == INDEX_TOP_LEFT {
            self.spec_top_left()
        } else if index == INDEX_TOP_RIGHT {
            self.spec_top_right()
        } else if index == INDEX_BOTTOM_LEFT {
            self.spec_bottom_left()
        } else if index == INDEX_BOTTOM_RIGHT {
            self.spec_bottom_right()
        } else {
            self
        }
    }

    /// The index of the quadrant that a point belongs to: a point strictly
    /// left of the midpoint goes left, any other goes right, and likewise a
    /// point strictly above the midpoint goes up, any other goes down.
    pub open spec fn quadrant_of(self, coord: Coord) -> int {
        if coord.x < self.spec_mid().x {
            if coord.y < self.spec_mid().y {
                INDEX_TOP_LEFT as int
            } else {
                INDEX_BOTTOM_LEFT as int
            }
        } else {
            if coord.y < self.spec_mid().y {
                INDEX_TOP_RIGHT as int
            } else {
                INDEX_BOTTOM_RIGHT as int
            }
        }
    }

    /// Width plus height, without sign: the measure that shrinks with every
    /// subdivision of a divisible rectangle.
    pub open spec fn span(self) -> nat {
        distance(self.top_left.x as int, self.bottom_right.x as int) + distance(
            self.top_left.y as int,
            self.bottom_right.y as int,
        )
    }

    /// Each of the four quadrants is strictly smaller than the rectangle.
    pub open spec fn spec_divisible(self) -> bool {
        ||| distance(self.top_left.x as int, self.bottom_right.x as int) >= 2
        ||| distance(self.top_left.y as int, self.bottom_right.y as int) >= 2
    }

    /// Subdividing a divisible rectangle makes progress in every quadrant.
    pub proof fn lemma_quadrant_span(self, index: int)
        requires
            self.spec_divisible(),
            0 <= index < 4,
        ensures
            self.quadrant(index).span() < self.span(),
    {
    }

    /// A rectangle that is not divisible has itself as its top-left
    /// quadrant when it is well-formed, so subdividing it again and again
    /// gets nowhere.
    pub proof fn law_indivisible_rectangle_stays(self)
        requires
            self.wf(),
            !self.spec_divisible(),
        ensures
            self.quadrant(INDEX_TOP_LEFT as int) == self,
    {
    }

    /// The quadrants of a well-formed rectangle are well-formed.
    pub proof fn lemma_quadrant_wf(self, index: int)
        requires
            self.wf(),
        ensures
            self.quadrant(index).wf(),
    {
    }

    /// The quadrants of a rectangle that is not divisible are not divisible
    /// either, and assign every point as the rectangle itself does.
    pub proof fn lemma_indivisible_quadrant(self, index: int, coord: Coord)
        requires
            !self.spec_divisible(),
            0 <= index < 4,
        ensures
            !self.quadrant(index).spec_divisible(),
            self.quadrant(index).quadrant_of(coord) == self.quadrant_of(coord),
    {
    }

    /// The quadrants of a well-formed rectangle that is not divisible hold
    /// one point of the grid each: two points inside it that are assigned to
    /// the same quadrant are one and the same.
    pub proof fn law_indivisible_rectangle_parts_its_points(self, a: Coord, b: Coord)
        requires
            self.wf(),
            !self.spec_divisible(),
            self.has_point(a),
            self.has_point(b),
            self.quadrant_of(a) == self.quadrant_of(b),
        ensures
            a == b,
    {
    }

    /// A point inside a well-formed rectangle is inside the quadrant it is
    /// assigned to, and that quadrant is well-formed too.
    pub proof fn lemma_quadrant_keeps_point(self, coord: Coord)
        requires
            self.wf(),
            self.has_point(coord),
        ensures
            self.quadrant(self.quadrant_of(coord)).wf(),
            self.quadrant(self.quadrant_of(coord)).has_point(coord),
    {
    }

    pub fn width(&self) -> (w: i64)
        ensures
            w == self.spec_width(),
    {
        self.bottom_right.x as i64 - self.top_left.x as i64
    }

    pub fn height(&self) -> (h: i64)
        ensures
            h == self.spec_height(),
    {
        self.bottom_right.y as i64 - self.top_left.y as i64
    }

    /// Whether `inner` lies fully inside this rectangle.
    pub fn contains(&self, inner: &Bounds) -> (b: bool)
        ensures
            b == self.spec_contains(*inner),
    {
        self.top_left.x <= inner.top_left.x && inner.top_left.x <= self.bottom_right.x
            && self.top_left.y <= inner.top_left.y && inner.top_left.y <= self.bottom_right.y
            && self.top_left.x <= inner.bottom_right.x && inner.bottom_right.x
            <= self.bottom_right.x && self.top_left.y <= inner.bottom_right.y
            && inner.bottom_right.y <= self.bottom_right.y
    }

    /// Whether subdividing this rectangle yields four strictly smaller ones.
    pub fn divisible(&self) -> (b: bool)
        ensures
            b == self.spec_divisible(),
    {
        let w: i64 = self.bottom_right.x as i64 - self.top_left.x as i64;
        let h: i64 = self.bottom_right.y as i64 - self.top_left.y as i64;
        w >= 2 || w <= -2 || h >= 2 || h <= -2
    }

    #[verifier::when_used_as_spec(spec_mid)]
    pub fn mid(&self) -> (m: Coord)
        ensures
            m == self.spec_mid(),
    {
        Coord {
            x: average(self.top_left.x, self.bottom_right.x),
            y: average(self.top_left.y, self.bottom_right.y),
        }
    }

    #[verifier::when_used_as_spec(spec_top_left)]
    pub fn top_left(&self) -> (b: Bounds)
        ensures
            b == self.spec_top_left(),
    {
        let mid = self.mid();
        Bounds { top_left: self.top_left, bottom_right: mid }
    }

    #[verifier::when_used_as_spec(spec_top_right)]
    pub fn top_right(&self) -> (b: Bounds)
        ensures
            b == self.spec_top_right(),
    {
        let mid = self.mid();
        Bounds {
            top_left: Coord { x: mid.x, y: self.top_left.y },
            bottom_right: Coord { x: self.bottom_right.x, y: mid.y },
        }
    }

    #[verifier::when_used_as_spec(spec_bottom_left)]
    pub fn bottom_left(&self) -> (b: Bounds)
        ensures
            b == self.spec_bottom_left(),
    {
        let mid = self.mid();
        Bounds {
            top_left: Coord { x: self.top_left.x, y: mid.y },
            bottom_right: Coord { x: mid.x, y: self.bottom_right.y },
        }
    }

    #[verifier::when_used_as_spec(spec_bottom_right)]
    pub fn bottom_right(&self) -> (b: Bounds)
        ensures
            b == self.spec_bottom_right(),
    {
        let mid = self.mid();
        Bounds { top_left: mid, bottom_right: self.bottom_right }
    }

    /// The quadrant with the given index.
    pub fn section_by_index(&self, index: usize) -> (b: Bounds)
        requires
            index < 4,
        ensures
            b == self.quadrant(index as int),
    {
        if index == INDEX_TOP_LEFT {
            self.top_left()
        } else if index == INDEX_TOP_RIGHT {
            self.top_right()
        } else if index == INDEX_BOTTOM_LEFT {
            self.bottom_left()
        } else {
            self.bottom_right()
        }
    }

    /// The index of the quadrant that `coord` belongs to.
    pub fn get_subsection_index(&self, coord: Coord) -> (index: usize)
        ensures
            index == self.quadrant_of(coord),
            index < 4,
    {
        let self_mid = self.mid();
        if coord.x < self_mid.x {
            if coord.y < self_mid.y {
                INDEX_TOP_LEFT
            } else {
                INDEX_BOTTOM_LEFT
            }
        } else {
            if coord.y < self_mid.y {
                INDEX_TOP_RIGHT
            } else {
                INDEX_BOTTOM_RIGHT
            }
        }
    }

    /// The quadrant with the given index.
    pub fn get_subsection_by_index(&self, index: usize) -> (b: Bounds)
        requires
            index < 4,
        ensures
            b == self.quadrant(index as int),
    {
        self.section_by_index(index)
    }

    /// The quadrant that `coord` belongs to, with its index.
    pub fn get_subsection(&self, coord: Coord) -> (r: (Bounds, usize))
        ensures
            r.1 == self.quadrant_of(coord),
            r.0 == self.quadrant(self.quadrant_of(coord)),
    {
        let idx = self.get_subsection_index(coord);
        let bounds = self.get_subsection_by_index(idx);
        (bounds, idx)
    }

    /// The four corners: top-left, top-right, bottom-right, bottom-left.
    pub fn corners(&self) -> (r: [Coord; 4])
        ensures
            r@ == self.spec_corners(),
    {
        let r = [
            self.top_left,
            Coord { x: self.bottom_right.x, y: self.top_left.y },
            self.bottom_right,
            Coord { x: self.top_left.x, y: self.bottom_right.y },
        ];
        assert(r@ =~= self.spec_corners());
        r
    }
}

/// The quotient of `a` by `b`, rounded towards zero.
fn divide(a: i32, b: i32) -> (q: i32)
    requires
        b != 0,
        b != -1 || a != i32::MIN,
    ensures
        q == Coord::quotient(a as int, b as int),
{
    let size: i64 = if a < 0 {
        -(a as i64)
    } else {
        a as i64
    };
    let by: i64 = if b < 0 {
        -(b as i64)
    } else {
        b as i64
    };
    proof {
        vstd::arithmetic::div_mod::lemma_div_nonincreasing(size as int, by as int);
        vstd::arithmetic::div_mod::lemma_div_pos_is_pos(size as int, by as int);
        if by > 1 && size > 0 {
            vstd::arithmetic::div_mod::lemma_div_decreases(size as int, by as int);
        }
    }
    let quotient: i64 = size / by;
    if (a < 0) != (b < 0) {
        (-quotient) as i32
    } else {
        quotient as i32
    }
}

/// The average of `a` and `b`, rounded up.
fn average(a: i32, b: i32) -> (m: i32)
    ensures
        m == midpoint(a as int, b as int),
{
    let sum: i64 = a as i64 + b as i64 + 1;
    let half: i64 = if sum >= 0 {
        sum / 2
    } else {
        (sum - 1) / 2
    };
    half as i32
}

} // verus!
