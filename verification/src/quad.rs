//! The mathematical model of the tree: what a node holds, and what insertion
//! and removal make of it.
//!
//! A leaf holds its entries in insertion order. A leaf that would grow past
//! its capacity is subdivided: its entries are dealt out to the four quadrants
//! of its region, and any quadrant that is still too full is subdivided in
//! turn. A region that can no longer be halved on either axis is subdivided
//! once and no further; where one of its quadrants would still get more
//! entries than a leaf holds, the insertion is refused. Of entries that lie
//! inside a well-formed region, only those that lie on one and the same
//! point of the grid are ever left together like that.

use crate::bounds::{Bounds, Coord};
use vstd::prelude::*;

verus! {

/// Largest number of entries that a leaf holds.
pub const LEAF_CAPACITY: usize = 16;

/// One point stored in the tree: the identity of its entity and its position.
#[derive(Copy, Clone, Debug, PartialEq, Eq, Structural)]
pub struct NodeInner {
    pub id: u64,
    pub coord: Coord,
}

/// The abstract value of a node.
pub enum Quad {
    /// The entries of a leaf, oldest first.
    Leaf(Seq<NodeInner>),
    /// The children of an internal node, by quadrant index.
    Split(Seq<Quad>),
}

/// Holds of the entries that `region` assigns to the quadrant `index`.
pub open spec fn in_quadrant(region: Bounds, index: int) -> spec_fn(NodeInner) -> bool {
    |e: NodeInner| region.quadrant_of(e.coord) == index
}

/// Holds of the entries that belong to another entity than `id`.
pub open spec fn other_than(id: u64) -> spec_fn(NodeInner) -> bool {
    |e: NodeInner| e.id != id
}

/// The entries that `region` assigns to the quadrant `index`, in their order.
pub open spec fn part(entries: Seq<NodeInner>, region: Bounds, index: int) -> Seq<NodeInner> {
    entries.filter(in_quadrant(region, index))
}

/// All entries lie on one and the same point.
pub open spec fn coincident(entries: Seq<NodeInner>) -> bool {
    forall|i: int, j: int|
        0 <= i < entries.len() && 0 <= j < entries.len() ==> entries[i].coord == entries[j].coord
}

/// Subdividing `region` ends with no more than [`LEAF_CAPACITY`] of the
/// entries in any one leaf: the entries fit into one leaf, or the region can
/// be halved and each of the four parts can be separated in its quadrant, or
/// the region cannot be halved and each of the four parts fits into one
/// leaf.
pub open spec fn separable(entries: Seq<NodeInner>, region: Bounds) -> bool
    decreases region.span(),
{
    ||| entries.len() <= LEAF_CAPACITY
    ||| {
        &&& region.spec_divisible()
        &&& separable(part(entries, region, 0), region.quadrant(0))
        &&& separable(part(entries, region, 1), region.quadrant(1))
        &&& separable(part(entries, region, 2), region.quadrant(2))
        &&& separable(part(entries, region, 3), region.quadrant(3))
    }
    ||| {
        &&& !region.spec_divisible()
        &&& part(entries, region, 0).len() <= LEAF_CAPACITY
        &&& part(entries, region, 1).len() <= LEAF_CAPACITY
        &&& part(entries, region, 2).len() <= LEAF_CAPACITY
        &&& part(entries, region, 3).len() <= LEAF_CAPACITY
    }
}

/// The tree that holds exactly `entries` over `region`: one leaf where they
/// fit, else an internal node over the four parts, which are subdivided in
/// turn where the region can be halved, and are leaves where it cannot.
pub open spec fn subdivide(entries: Seq<NodeInner>, region: Bounds) -> Quad
    decreases region.span(),
{
    if entries.len() <= LEAF_CAPACITY {
        Quad::Leaf(entries)
    } else if region.spec_divisible() {
        Quad::Split(
            seq![
                subdivide(part(entries, region, 0), region.quadrant(0)),
                subdivide(part(entries, region, 1), region.quadrant(1)),
                subdivide(part(entries, region, 2), region.quadrant(2)),
                subdivide(part(entries, region, 3), region.quadrant(3)),
            ],
        )
    } else {
        Quad::Split(
            seq![
                Quad::Leaf(part(entries, region, 0)),
                Quad::Leaf(part(entries, region, 1)),
                Quad::Leaf(part(entries, region, 2)),
                Quad::Leaf(part(entries, region, 3)),
            ],
        )
    }
}

impl Quad {
    /// The tree without any entry.
    pub open spec fn empty() -> Quad {
        Quad::Leaf(Seq::empty())
    }

    /// The number of entries in all leaves.
    pub open spec fn count(self) -> nat
        decreases self,
    {
        match self {
            Quad::Leaf(entries) => entries.len(),
            Quad::Split(children) => if children.len() == 4 {
                children[0].count() + children[1].count() + children[2].count()
                    + children[3].count()
            } else {
                0
            },
        }
    }

    /// The number of entries of the entity `id` in all leaves.
    pub open spec fn count_of(self, id: u64) -> nat
        decreases self,
    {
        match self {
            Quad::Leaf(entries) => (entries.len() - entries.filter(other_than(id)).len()) as nat,
            Quad::Split(children) => if children.len() == 4 {
                children[0].count_of(id) + children[1].count_of(id) + children[2].count_of(id)
                    + children[3].count_of(id)
            } else {
                0
            },
        }
    }

    /// No leaf is over capacity, every internal node has four children, and
    /// no internal node is empty.
    pub open spec fn wf(self) -> bool
        decreases self,
    {
        match self {
            Quad::Leaf(entries) => entries.len() <= LEAF_CAPACITY,
            Quad::Split(children) => {
                &&& children.len() == 4
                &&& children[0].wf()
                &&& children[1].wf()
                &&& children[2].wf()
                &&& children[3].wf()
                &&& self.count() > 0
            },
        }
    }

    /// Whether `entry` can be inserted: the leaf it is routed to has room, or
    /// can be subdivided so that it has.
    pub open spec fn accepts(self, entry: NodeInner, region: Bounds) -> bool
        decreases self,
    {
        match self {
            Quad::Leaf(entries) => separable(entries.push(entry), region),
            Quad::Split(children) => {
                let q = region.quadrant_of(entry.coord);
                children.len() == 4 && children[q].accepts(entry, region.quadrant(q))
            },
        }
    }

    /// The tree after `entry` was inserted.
    pub open spec fn insert(self, entry: NodeInner, region: Bounds) -> Quad
        decreases self,
    {
        match self {
            Quad::Leaf(entries) => subdivide(entries.push(entry), region),
            Quad::Split(children) => {
                let q = region.quadrant_of(entry.coord);
                if children.len() == 4 {
                    Quad::Split(children.update(q, children[q].insert(entry, region.quadrant(q))))
                } else {
                    self
                }
            },
        }
    }

    /// Whether all of `batch` can be inserted, one entry after the other.
    pub open spec fn accepts_all(self, batch: Seq<NodeInner>, region: Bounds) -> bool
        decreases self,
    {
        match self {
            Quad::Leaf(entries) => separable(entries + batch, region),
            Quad::Split(children) => {
                &&& children.len() == 4
                &&& children[0].accepts_all(part(batch, region, 0), region.quadrant(0))
                &&& children[1].accepts_all(part(batch, region, 1), region.quadrant(1))
                &&& children[2].accepts_all(part(batch, region, 2), region.quadrant(2))
                &&& children[3].accepts_all(part(batch, region, 3), region.quadrant(3))
            },
        }
    }

    /// The tree after all of `batch` was inserted, one entry after the other.
    pub open spec fn insert_all(self, batch: Seq<NodeInner>, region: Bounds) -> Quad
        decreases self,
    {
        match self {
            Quad::Leaf(entries) => subdivide(entries + batch, region),
            Quad::Split(children) => if children.len() == 4 {
                Quad::Split(
                    seq![
                        children[0].insert_all(part(batch, region, 0), region.quadrant(0)),
                        children[1].insert_all(part(batch, region, 1), region.quadrant(1)),
                        children[2].insert_all(part(batch, region, 2), region.quadrant(2)),
                        children[3].insert_all(part(batch, region, 3), region.quadrant(3)),
                    ],
                )
            } else {
                self
            },
        }
    }

    /// The tree after the entries of `batch` were inserted one at a time, or
    /// nothing where one of them was refused on its turn.
    pub open spec fn insert_each(self, batch: Seq<NodeInner>, region: Bounds) -> Option<Quad>
        decreases batch.len(),
    {
        if batch.len() == 0 {
            Some(self)
        } else if !self.accepts(batch[0], region) {
            None
        } else {
            self.insert(batch[0], region).insert_each(batch.drop_first(), region)
        }
    }

    /// The tree after the entries of the entity `id` were deleted from the
    /// leaf that `coord` is routed to, and every internal node on the way
    /// that was left empty was turned back into an empty leaf.
    pub open spec fn remove(self, id: u64, coord: Coord, region: Bounds) -> Quad
        decreases self,
    {
        match self {
            Quad::Leaf(entries) => Quad::Leaf(entries.filter(other_than(id))),
            Quad::Split(children) => {
                let q = region.quadrant_of(coord);
                if children.len() == 4 {
                    let pruned = Quad::Split(
                        children.update(q, children[q].remove(id, coord, region.quadrant(q))),
                    );
                    if pruned.count() == 0 {
                        Quad::empty()
                    } else {
                        pruned
                    }
                } else {
                    self
                }
            },
        }
    }

    /// The region of every node, each node before its children and the
    /// children by quadrant index.
    pub open spec fn regions(self, region: Bounds) -> Seq<Bounds>
        decreases self,
    {
        match self {
            Quad::Leaf(_) => seq![region],
            Quad::Split(children) => if children.len() == 4 {
                seq![region] + children[0].regions(region.quadrant(0)) + children[1].regions(
                    region.quadrant(1),
                ) + children[2].regions(region.quadrant(2)) + children[3].regions(
                    region.quadrant(3),
                )
            } else {
                seq![region]
            },
        }
    }
}

/// Every entry belongs to exactly one of the four parts.
pub proof fn lemma_part_lengths(entries: Seq<NodeInner>, region: Bounds)
    ensures
        part(entries, region, 0).len() + part(entries, region, 1).len() + part(
            entries,
            region,
            2,
        ).len() + part(entries, region, 3).len() == entries.len(),
    decreases entries.len(),
{
    if entries.len() == 0 {
        entries.lemma_filter_len(in_quadrant(region, 0));
        entries.lemma_filter_len(in_quadrant(region, 1));
        entries.lemma_filter_len(in_quadrant(region, 2));
        entries.lemma_filter_len(in_quadrant(region, 3));
    } else {
        let init = entries.drop_last();
        let last = entries.last();
        lemma_part_lengths(init, region);
        assert(entries =~= init.push(last));
        init.lemma_filter_push(last, in_quadrant(region, 0));
        init.lemma_filter_push(last, in_quadrant(region, 1));
        init.lemma_filter_push(last, in_quadrant(region, 2));
        init.lemma_filter_push(last, in_quadrant(region, 3));
    }
}

/// Subdividing keeps every entry, and yields a well-formed tree where the
/// entries are separable.
pub proof fn lemma_subdivide(entries: Seq<NodeInner>, region: Bounds)
    ensures
        subdivide(entries, region).count() == entries.len(),
        separable(entries, region) ==> subdivide(entries, region).wf(),
    decreases region.span(),
{
    if entries.len() > LEAF_CAPACITY && region.spec_divisible() {
        region.lemma_quadrant_span(0);
        region.lemma_quadrant_span(1);
        region.lemma_quadrant_span(2);
        region.lemma_quadrant_span(3);
        lemma_subdivide(part(entries, region, 0), region.quadrant(0));
        lemma_subdivide(part(entries, region, 1), region.quadrant(1));
        lemma_subdivide(part(entries, region, 2), region.quadrant(2));
        lemma_subdivide(part(entries, region, 3), region.quadrant(3));
        lemma_part_lengths(entries, region);
    } else if entries.len() > LEAF_CAPACITY {
        lemma_part_lengths(entries, region);
        let first = Quad::Leaf(part(entries, region, 0));
        let second = Quad::Leaf(part(entries, region, 1));
        let third = Quad::Leaf(part(entries, region, 2));
        let fourth = Quad::Leaf(part(entries, region, 3));
        assert(first.count() == part(entries, region, 0).len());
        assert(second.count() == part(entries, region, 1).len());
        assert(third.count() == part(entries, region, 2).len());
        assert(fourth.count() == part(entries, region, 3).len());
        if separable(entries, region) {
            assert(first.wf() && second.wf() && third.wf() && fourth.wf());
        }
    }
}

impl Quad {
    /// A well-formed tree without entries is the empty leaf.
    pub proof fn lemma_empty(self)
        requires
            self.wf(),
            self.count() == 0,
        ensures
            self == Quad::empty(),
    {
        match self {
            Quad::Leaf(entries) => {
                assert(entries =~= Seq::empty());
            },
            Quad::Split(_) => {},
        }
    }

    /// An accepted insertion keeps the tree well-formed and adds one entry.
    pub proof fn lemma_insert(self, entry: NodeInner, region: Bounds)
        requires
            self.wf(),
            self.accepts(entry, region),
        ensures
            self.insert(entry, region).wf(),
            self.insert(entry, region).count() == self.count() + 1,
        decreases self,
    {
        match self {
            Quad::Leaf(entries) => {
                lemma_subdivide(entries.push(entry), region);
            },
            Quad::Split(children) => {
                let q = region.quadrant_of(entry.coord);
                children[q].lemma_insert(entry, region.quadrant(q));
            },
        }
    }

    /// An accepted batch keeps the tree well-formed and adds all its entries.
    pub proof fn lemma_insert_all(self, batch: Seq<NodeInner>, region: Bounds)
        requires
            self.wf(),
            self.accepts_all(batch, region),
        ensures
            self.insert_all(batch, region).wf(),
            self.insert_all(batch, region).count() == self.count() + batch.len(),
        decreases self,
    {
        match self {
            Quad::Leaf(entries) => {
                lemma_subdivide(entries + batch, region);
            },
            Quad::Split(children) => {
                children[0].lemma_insert_all(part(batch, region, 0), region.quadrant(0));
                children[1].lemma_insert_all(part(batch, region, 1), region.quadrant(1));
                children[2].lemma_insert_all(part(batch, region, 2), region.quadrant(2));
                children[3].lemma_insert_all(part(batch, region, 3), region.quadrant(3));
                lemma_part_lengths(batch, region);
            },
        }
    }

    /// A removal keeps the tree well-formed and adds no entry.
    pub proof fn lemma_remove(self, id: u64, coord: Coord, region: Bounds)
        requires
            self.wf(),
        ensures
            self.remove(id, coord, region).wf(),
            self.remove(id, coord, region).count() <= self.count(),
        decreases self,
    {
        match self {
            Quad::Leaf(entries) => {
                entries.lemma_filter_len(other_than(id));
            },
            Quad::Split(children) => {
                let q = region.quadrant_of(coord);
                children[q].lemma_remove(id, coord, region.quadrant(q));
            },
        }
    }
    /// Nothing is always accepted, and inserting nothing changes nothing.
    pub proof fn lemma_insert_nothing(self, batch: Seq<NodeInner>, region: Bounds)
        requires
            self.wf(),
            batch.len() == 0,
        ensures
            self.accepts_all(batch, region),
            self.insert_all(batch, region) == self,
        decreases self,
    {
        match self {
            Quad::Leaf(entries) => {
                assert(entries + batch =~= entries);
            },
            Quad::Split(children) => {
                batch.lemma_filter_len(in_quadrant(region, 0));
                batch.lemma_filter_len(in_quadrant(region, 1));
                batch.lemma_filter_len(in_quadrant(region, 2));
                batch.lemma_filter_len(in_quadrant(region, 3));
                children[0].lemma_insert_nothing(part(batch, region, 0), region.quadrant(0));
                children[1].lemma_insert_nothing(part(batch, region, 1), region.quadrant(1));
                children[2].lemma_insert_nothing(part(batch, region, 2), region.quadrant(2));
                children[3].lemma_insert_nothing(part(batch, region, 3), region.quadrant(3));
                assert(self.insert_all(batch, region)->Split_0 =~= children);
            },
        }
    }
}

} // verus!
