//! The index: a quad-tree over a fixed region that stores entities by the
//! four corners of their bounding boxes.

use crate::bounds::Bounds;
use crate::error::InsertError;
use crate::laws::{
    law_empty_index_is_consistent, law_index_refuses_only_crowded_points,
    law_insertion_keeps_consistent, law_insertion_keeps_wf, law_removal_keeps_consistent,
    law_removal_keeps_wf,
};
use crate::spots::fits;
use crate::node::Node;
use crate::quad::{NodeInner, Quad};
use std::collections::HashMap;
use vstd::prelude::*;

verus! {

broadcast use vstd::std_specs::hash::group_hash_axioms;

/// What an entity must offer to be stored in the index: an identity and a
/// bounding box, both of which depend on the entity's value alone.
///
/// The index reads both when the entity is inserted and keeps a copy of the
/// entity. An entity that moves is removed and inserted again.
pub trait AABB: Clone {
    /// The bounding box of this value.
    spec fn spec_bounds(&self) -> Bounds;

    /// The identity of this value.
    spec fn spec_id(&self) -> u64;

    fn bounds(&self) -> (b: Bounds)
        ensures
            b == self.spec_bounds(),
    ;

    fn id(&self) -> (id: u64)
        ensures
            id == self.spec_id(),
    ;
}

/// The four point entries that stand for an entity in the tree: one for each
/// corner of its bounding box, in the order top-left, top-right,
/// bottom-right, bottom-left.
pub open spec fn corner_entries(id: u64, bounds: Bounds) -> Seq<NodeInner> {
    seq![
        NodeInner { id, coord: bounds.spec_corners()[0] },
        NodeInner { id, coord: bounds.spec_corners()[1] },
        NodeInner { id, coord: bounds.spec_corners()[2] },
        NodeInner { id, coord: bounds.spec_corners()[3] },
    ]
}

/// The tree after the entries of the entity `id` were removed at each corner
/// of `bounds`, in the order of the corners.
pub open spec fn remove_corners(root: Quad, id: u64, bounds: Bounds, region: Bounds) -> Quad {
    root.remove(id, bounds.spec_corners()[0], region).remove(
        id,
        bounds.spec_corners()[1],
        region,
    ).remove(id, bounds.spec_corners()[2], region).remove(id, bounds.spec_corners()[3], region)
}

/// The abstract value of the index.
pub struct TreeView<T> {
    /// The tree of point entries.
    pub root: Quad,
    /// The region that the tree covers.
    pub bounds: Bounds,
    /// The stored entities, by identity.
    pub entries: Map<u64, T>,
}

impl<T: AABB> TreeView<T> {
    /// The index over `bounds` that holds nothing.
    pub open spec fn empty(bounds: Bounds) -> Self {
        TreeView { root: Quad::empty(), bounds, entries: Map::empty() }
    }

    /// The tree is well-formed, and every entry lies inside the region of
    /// the index, in the leaf that it is routed to.
    pub open spec fn wf(self) -> bool {
        &&& self.root.wf()
        &&& self.root.routed(self.bounds)
        &&& self.root.within(self.bounds)
        &&& self.entries.dom().finite()
    }

    /// The number of stored entities.
    pub open spec fn entity_count(self) -> nat {
        self.entries.len()
    }

    /// The number of point entries in the tree.
    pub open spec fn point_count(self) -> nat {
        self.root.count()
    }

    /// Why `value` cannot be inserted, if it cannot.
    pub open spec fn rejects(self, value: T) -> Option<InsertError> {
        if !self.bounds.spec_contains(value.spec_bounds()) {
            Some(InsertError::OutOfBounds)
        } else if !self.root.accepts_all(
            corner_entries(value.spec_id(), value.spec_bounds()),
            self.bounds,
        ) {
            Some(InsertError::CoincidentPoints)
        } else {
            None
        }
    }

    /// The index after `value` was inserted.
    pub open spec fn insert(self, value: T) -> Self {
        TreeView {
            root: self.root.insert_all(
                corner_entries(value.spec_id(), value.spec_bounds()),
                self.bounds,
            ),
            bounds: self.bounds,
            entries: self.entries.insert(value.spec_id(), value),
        }
    }

    /// The index after `values` were inserted one after the other, or nothing
    /// where one of them was refused on its turn.
    pub open spec fn insert_values(self, values: Seq<T>) -> Option<Self>
        decreases values.len(),
    {
        if values.len() == 0 {
            Some(self)
        } else if self.rejects(values[0]) is Some {
            None
        } else {
            self.insert(values[0]).insert_values(values.drop_first())
        }
    }

    /// No two of `values` share an identity, and none of them has the
    /// identity of a stored entity.
    pub open spec fn new_to(self, values: Seq<T>) -> bool {
        &&& forall|i: int|
            0 <= i < values.len() ==> !self.entries.contains_key((#[trigger] values[i]).spec_id())
        &&& forall|i: int, j: int|
            0 <= i < j < values.len() ==> (#[trigger] values[i]).spec_id() != (
            #[trigger] values[j]).spec_id()
    }

    /// The box of every stored entity lies inside the region of the index,
    /// and the tree holds the four corner entries of every stored entity,
    /// each in the leaf it is routed to, and nothing else.
    pub open spec fn consistent(self) -> bool {
        &&& self.wf()
        &&& forall|id: u64| #[trigger]
            self.entries.contains_key(id) ==> self.bounds.spec_contains(
                self.entries[id].spec_bounds(),
            )
        &&& forall|entry: NodeInner| #[trigger]
            self.root.has(entry) ==> self.entries.contains_key(entry.id) && corner_entries(
                entry.id,
                self.entries[entry.id].spec_bounds(),
            ).contains(entry)
        &&& forall|id: u64| #[trigger]
            self.entries.contains_key(id) ==> self.root.count_of(id) == 4
        &&& self.root.count() == 4 * self.entries.len()
    }

    /// The index after the entity `id` was removed.
    pub open spec fn remove(self, id: u64) -> Self {
        if self.entries.contains_key(id) {
            TreeView {
                root: remove_corners(self.root, id, self.entries[id].spec_bounds(), self.bounds),
                bounds: self.bounds,
                entries: self.entries.remove(id),
            }
        } else {
            self
        }
    }
}

/// A spatial index over a fixed region.
///
/// An entity is stored under its identity, and its bounding box is entered
/// into the tree as four point entries, one for each corner.
pub struct AABBQuadTree<T: AABB> {
    root: Node,
    bounds: Bounds,
    entries: HashMap<u64, T>,
}

impl<T: AABB> View for AABBQuadTree<T> {
    type V = TreeView<T>;

    closed spec fn view(&self) -> TreeView<T> {
        TreeView { root: self.root@, bounds: self.bounds, entries: self.entries@ }
    }
}

/// The point entries of an entity with the given identity and bounding box.
fn corner_batch(id: u64, bounds: &Bounds) -> (batch: Vec<NodeInner>)
    ensures
        batch@ == corner_entries(id, *bounds),
{
    let corners = bounds.corners();
    let mut batch: Vec<NodeInner> = Vec::new();
    batch.push(NodeInner { id, coord: corners[0] });
    batch.push(NodeInner { id, coord: corners[1] });
    batch.push(NodeInner { id, coord: corners[2] });
    batch.push(NodeInner { id, coord: corners[3] });
    assert(batch@ =~= corner_entries(id, *bounds));
    batch
}

impl<T: AABB> AABBQuadTree<T> {
    /// The tree is well-formed.
    pub open spec fn wf(&self) -> bool {
        self@.wf()
    }

    /// An index over `bounds` that holds nothing. The region never grows.
    pub fn new(bounds: Bounds) -> (tree: Self)
        ensures
            tree.wf(),
            tree@ == TreeView::<T>::empty(bounds),
            tree@.consistent(),
    {
        proof {
            law_empty_index_is_consistent::<T>(bounds);
        }
        AABBQuadTree { root: Node::new(), bounds, entries: HashMap::new() }
    }

    /// Stores `t` under its identity and enters the four corners of its
    /// bounding box into the tree.
    ///
    /// A box that is not fully inside the region of the index is refused, and
    /// so is one whose corners would leave more points than a leaf holds
    /// together in a region that cannot be halved: that is the case if and
    /// only if more entries than a leaf holds would lie on one and the same
    /// point of the grid. A refused insertion changes nothing.
    /// An entity that is already stored under the same identity is replaced
    /// in the map, while its earlier corner entries stay in the tree; the
    /// index is then no longer consistent.
    pub fn insert(&mut self, t: T) -> (r: Result<(), InsertError>)
        requires
            old(self).wf(),
        ensures
            final(self).wf(),
            r == match old(self)@.rejects(t) {
                Some(e) => Err::<(), InsertError>(e),
                None => Ok::<(), InsertError>(()),
            },
            final(self)@ == if old(self)@.rejects(t) is None {
                old(self)@.insert(t)
            } else {
                old(self)@
            },
            r is Ok ==> final(self)@.point_count() == old(self)@.point_count() + 4,
            r is Ok && old(self)@.consistent() && !old(self)@.entries.contains_key(t.spec_id())
                ==> final(self)@.consistent(),
            r == Err::<(), InsertError>(InsertError::CoincidentPoints) <==> old(self)@.bounds.spec_contains(t.spec_bounds()) && !fits(
                old(self)@.root,
                corner_entries(t.spec_id(), t.spec_bounds()),
            ),
    {
        proof {
            if old(self)@.bounds.spec_contains(t.spec_bounds()) {
                law_index_refuses_only_crowded_points(old(self)@, t);
            }
            if old(self)@.rejects(t) is None {
                law_insertion_keeps_wf(old(self)@, t);
            }
            if old(self)@.consistent() && old(self)@.rejects(t) is None
                && !old(self)@.entries.contains_key(t.spec_id()) {
                law_insertion_keeps_consistent(old(self)@, t);
            }
        }
        let val_bounds = t.bounds();
        if !self.bounds.contains(&val_bounds) {
            return Err(InsertError::OutOfBounds);
        }
        let id = t.id();
        let batch = corner_batch(id, &val_bounds);
        if !self.root.accepts_all(&batch, self.bounds) {
            return Err(InsertError::CoincidentPoints);
        }
        proof {
            self.root@.lemma_insert_all(batch@, self.bounds);
        }
        self.entries.insert(id, t);
        self.root.insert_all(&batch, self.bounds);
        Ok(())
    }

    /// Removes the entity stored under the identity of `t`, and the entries
    /// that its stored value has at the four corners of its bounding box.
    ///
    /// The corners are those of the value that was stored, not of `t`: an
    /// entity is found again even where the caller's copy has moved. Where
    /// nothing is stored under the identity, nothing changes.
    pub fn remove(&mut self, t: &T)
        requires
            old(self).wf(),
        ensures
            final(self).wf(),
            final(self)@ == old(self)@.remove(t.spec_id()),
            old(self)@.consistent() ==> final(self)@.consistent(),
    {
        proof {
            law_removal_keeps_wf(old(self)@, t.spec_id());
            if old(self)@.consistent() {
                law_removal_keeps_consistent(old(self)@, t.spec_id());
            }
        }
        let id = t.id();
        match self.entries.remove(&id) {
            Some(stored) => {
                let corners = stored.bounds().corners();
                let region = self.bounds;
                self.root.remove(id, corners[0], region);
                self.root.remove(id, corners[1], region);
                self.root.remove(id, corners[2], region);
                self.root.remove(id, corners[3], region);
            },
            None => {
                assert(self.entries@ =~= old(self).entries@);
            },
        }
    }

    /// The region of every node of the tree: each node before its children,
    /// the children by quadrant index.
    pub fn dbg_rectangles(&self) -> (rects: Vec<Bounds>)
        requires
            self.wf(),
        ensures
            rects@ == self@.root.regions(self@.bounds),
    {
        let mut rects: Vec<Bounds> = Vec::new();
        self.root.regions(self.bounds, &mut rects);
        rects
    }

    /// The number of stored entities.
    pub fn dbg_entity_count(&self) -> (n: usize)
        requires
            self.wf(),
        ensures
            n == self@.entity_count(),
    {
        self.entries.len()
    }

    /// The number of point entries in the tree, or the largest number that
    /// can be told where there are more.
    pub fn dbg_point_count(&self) -> (n: usize)
        requires
            self.wf(),
        ensures
            n == if self@.point_count() <= usize::MAX {
                self@.point_count() as int
            } else {
                usize::MAX as int
            },
    {
        self.root.point_count()
    }
}

} // verus!
