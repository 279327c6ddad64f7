//! The nodes of the tree: leaves that hold point entries, and internal nodes
//! that hold four children, one for each quadrant of their region.

use crate::bounds::{Bounds, Coord};
use crate::error::InsertError;
use crate::laws::law_entry_accepted_unless_crowded;
use crate::spots::fits;
use crate::quad::{
    lemma_subdivide, other_than, part, separable, subdivide, in_quadrant, NodeInner, Quad,
    LEAF_CAPACITY,
};
use vstd::prelude::*;

verus! {

/// A node of the tree. It does not know its own region: the caller hands the
/// region down with every operation.
#[derive(Debug, PartialEq, Eq)]
pub enum Node {
    /// Up to [`LEAF_CAPACITY`] entries, oldest first.
    Leaf(Vec<NodeInner>),
    /// Four children, by quadrant index.
    Internal(Vec<Node>),
}

impl View for Node {
    type V = Quad;

    open spec fn view(&self) -> Quad
        decreases self,
    {
        match self {
            Node::Leaf(entries) => Quad::Leaf(entries@),
            Node::Internal(children) => Quad::Split(
                Seq::new(
                    children@.len(),
                    |i: int|
                        if 0 <= i < children@.len() {
                            children@[i].view()
                        } else {
                            Quad::empty()
                        },
                ),
            ),
        }
    }
}

impl Default for Node {
    fn default() -> (node: Node)
        ensures
            node@ == Quad::empty(),
    {
        Node::new()
    }
}

/// The entries of `entries` followed by those of `batch`.
fn concat(entries: &Vec<NodeInner>, batch: &Vec<NodeInner>) -> (all: Vec<NodeInner>)
    ensures
        all@ == entries@ + batch@,
{
    let mut all: Vec<NodeInner> = Vec::new();
    let mut i: usize = 0;
    while i < entries.len()
        invariant
            i <= entries.len(),
            all@ == entries@.take(i as int),
        decreases entries.len() - i,
    {
        all.push(entries[i]);
        i += 1;
    }
    let mut j: usize = 0;
    while j < batch.len()
        invariant
            j <= batch.len(),
            all@ == entries@ + batch@.take(j as int),
        decreases batch.len() - j,
    {
        all.push(batch[j]);
        j += 1;
    }
    all
}

/// The entries that `region` assigns to the quadrant `index`, in their order.
fn partition(entries: &Vec<NodeInner>, region: Bounds, index: usize) -> (kept: Vec<NodeInner>)
    ensures
        kept@ == part(entries@, region, index as int),
{
    let mut kept: Vec<NodeInner> = Vec::new();
    let mut i: usize = 0;
    proof {
        entries@.take(0).lemma_filter_len(in_quadrant(region, index as int));
    }
    while i < entries.len()
        invariant
            i <= entries.len(),
            kept@ == part(entries@.take(i as int), region, index as int),
        decreases entries.len() - i,
    {
        let entry = entries[i];
        proof {
            assert(entries@.take(i + 1) =~= entries@.take(i as int).push(entry));
            entries@.take(i as int).lemma_filter_push(entry, in_quadrant(region, index as int));
        }
        if region.get_subsection_index(entry.coord) == index {
            kept.push(entry);
        }
        i += 1;
    }
    assert(entries@.take(entries.len() as int) =~= entries@);
    kept
}

/// The entries that belong to another entity than `id`, in their order.
fn without(entries: &Vec<NodeInner>, id: u64) -> (kept: Vec<NodeInner>)
    ensures
        kept@ == entries@.filter(other_than(id)),
{
    let mut kept: Vec<NodeInner> = Vec::new();
    let mut i: usize = 0;
    proof {
        entries@.take(0).lemma_filter_len(other_than(id));
    }
    while i < entries.len()
        invariant
            i <= entries.len(),
            kept@ == entries@.take(i as int).filter(other_than(id)),
        decreases entries.len() - i,
    {
        let entry = entries[i];
        proof {
            assert(entries@.take(i + 1) =~= entries@.take(i as int).push(entry));
            entries@.take(i as int).lemma_filter_push(entry, other_than(id));
        }
        if entry.id != id {
            kept.push(entry);
        }
        i += 1;
    }
    assert(entries@.take(entries.len() as int) =~= entries@);
    kept
}

/// Builds the tree that holds exactly `entries` over `region`, or nothing
/// where the entries cannot be separated. A region that can be halved is
/// subdivided as far as it takes; one that cannot is subdivided once.
fn try_subdivide(entries: Vec<NodeInner>, region: Bounds) -> (built: Option<Node>)
    ensures
        built is Some <==> separable(entries@, region),
        built matches Some(node) ==> node@ == subdivide(entries@, region) && node.wf(),
    decreases region.span(),
{
    if entries.len() <= LEAF_CAPACITY {
        return Some(Node::Leaf(entries));
    }
    let halves = region.divisible();
    let mut children: Vec<Node> = Vec::new();
    let mut index: usize = 0;
    while index < 4
        invariant
            index <= 4,
            children.len() == index,
            entries.len() > LEAF_CAPACITY,
            halves == region.spec_divisible(),
            forall|i: int|
                0 <= i < index ==> {
                    &&& halves ==> separable(part(entries@, region, i), region.quadrant(i))
                    &&& !halves ==> part(entries@, region, i).len() <= LEAF_CAPACITY
                    &&& (#[trigger] children@[i])@ == if halves {
                        subdivide(part(entries@, region, i), region.quadrant(i))
                    } else {
                        Quad::Leaf(part(entries@, region, i))
                    }
                },
        decreases 4 - index,
    {
        let subset = partition(&entries, region, index);
        let child = if halves {
            let subregion = region.section_by_index(index);
            proof {
                region.lemma_quadrant_span(index as int);
            }
            try_subdivide(subset, subregion)
        } else if subset.len() <= LEAF_CAPACITY {
            Some(Node::Leaf(subset))
        } else {
            None
        };
        match child {
            Some(child) => {
                children.push(child);
            },
            None => {
                return None;
            },
        }
        index += 1;
    }
    let node = Node::Internal(children);
    proof {
        assert(node@->Split_0 =~= subdivide(entries@, region)->Split_0);
        lemma_subdivide(entries@, region);
    }
    Some(node)
}

impl Node {
    /// No leaf is over capacity, every internal node has four children, and
    /// no internal node is empty.
    pub open spec fn wf(&self) -> bool {
        self@.wf()
    }

    /// An empty leaf.
    pub fn new() -> (node: Node)
        ensures
            node@ == Quad::empty(),
            node.wf(),
    {
        Node::Leaf(Vec::new())
    }

    /// Whether the node holds no entry: a leaf without entries, or an
    /// internal node whose four children are all empty.
    pub fn is_empty(&self) -> (b: bool)
        requires
            self.wf(),
        ensures
            b == (self@.count() == 0),
        decreases self,
    {
        match self {
            Node::Leaf(entries) => entries.len() == 0,
            Node::Internal(children) => {
                children[0].is_empty() && children[1].is_empty() && children[2].is_empty()
                    && children[3].is_empty()
            },
        }
    }

    /// Inserts `entry` into the leaf that `region` routes it to. A full leaf
    /// is subdivided: its entries and the new one are dealt out to the four
    /// quadrants of its region, and a quadrant that gets more than a leaf
    /// holds is subdivided in turn as long as its region can be halved.
    /// Where more than a leaf holds would stay together in a region that
    /// cannot be halved, the insertion is refused and nothing changes. In a
    /// tree whose entries lie inside its well-formed region, each in the
    /// leaf it is routed to, an entry inside the region is refused if and
    /// only if it would be one more on its point than a leaf holds.
    pub fn insert(&mut self, entry: NodeInner, region: Bounds) -> (r: Result<(), InsertError>)
        requires
            old(self).wf(),
        ensures
            final(self).wf(),
            old(self)@.accepts(entry, region) ==> r is Ok && final(self)@ == old(self)@.insert(
                entry,
                region,
            ),
            !old(self)@.accepts(entry, region) ==> r == Err::<(), InsertError>(
                InsertError::CoincidentPoints,
            ) && final(self)@ == old(self)@,
            old(self)@.routed(region) && old(self)@.within(region) && region.wf()
                && region.has_point(entry.coord) ==> {
                &&& r is Err <==> !fits(old(self)@, seq![entry])
                &&& final(self)@.routed(region)
                &&& final(self)@.within(region)
            },
        decreases *old(self),
    {
        proof {
            if old(self)@.routed(region) && old(self)@.within(region) && region.wf()
                && region.has_point(entry.coord) {
                law_entry_accepted_unless_crowded(old(self)@, entry, region);
            }
        }
        match self {
            Node::Leaf(entries) => {
                if entries.len() < LEAF_CAPACITY {
                    entries.push(entry);
                    Ok(())
                } else {
                    self.to_nested_with_new_value(entry, region)
                }
            },
            Node::Internal(children) => {
                let (subregion, index) = region.get_subsection(entry.coord);
                let r = children[index].insert(entry, subregion);
                proof {
                    let q = index as int;
                    assert(final(self)@->Split_0 =~= old(self)@->Split_0.update(
                        q,
                        children@[q]@,
                    ));
                    if old(self)@.accepts(entry, region) {
                        old(self)@.lemma_insert(entry, region);
                    } else {
                        assert(final(self)@->Split_0 =~= old(self)@->Split_0);
                    }
                }
                r
            },
        }
    }

    /// Turns a leaf into the tree that holds its entries and `val`, or
    /// refuses where the entries cannot be separated.
    fn to_nested_with_new_value(&mut self, val: NodeInner, region: Bounds) -> (r: Result<
        (),
        InsertError,
    >)
        requires
            old(self).wf(),
            *old(self) is Leaf,
        ensures
            final(self).wf(),
            old(self)@.accepts(val, region) ==> r is Ok && final(self)@ == old(self)@.insert(
                val,
                region,
            ),
            !old(self)@.accepts(val, region) ==> r == Err::<(), InsertError>(
                InsertError::CoincidentPoints,
            ) && final(self)@ == old(self)@,
    {
        let mut last: Vec<NodeInner> = Vec::new();
        last.push(val);
        let values = match self {
            Node::Leaf(entries) => concat(entries, &last),
            Node::Internal(_) => last,
        };
        assert(values@ =~= old(self)@->Leaf_0.push(val));
        match try_subdivide(values, region) {
            Some(node) => {
                *self = node;
                Ok(())
            },
            None => Err(InsertError::CoincidentPoints),
        }
    }

    /// Deletes the entries of the entity `id` from the leaf that `region`
    /// routes `coord` to. Every internal node on the way that is left
    /// without entries becomes an empty leaf again.
    pub fn remove(&mut self, id: u64, coord: Coord, region: Bounds)
        requires
            old(self).wf(),
        ensures
            final(self).wf(),
            final(self)@ == old(self)@.remove(id, coord, region),
            old(self)@.routed(region) ==> final(self)@.routed(region),
            old(self)@.within(region) ==> final(self)@.within(region),
        decreases *old(self),
    {
        proof {
            old(self)@.lemma_remove(id, coord, region);
            if old(self)@.routed(region) {
                old(self)@.lemma_remove_routed(id, coord, region);
            }
            if old(self)@.within(region) {
                assert forall|other: NodeInner| #[trigger]
                    old(self)@.remove(id, coord, region).has(other) implies region.has_point(
                    other.coord,
                ) by {
                    old(self)@.lemma_remove_has(id, coord, region, other);
                }
            }
        }
        match self {
            Node::Leaf(entries) => {
                let kept = without(entries, id);
                *entries = kept;
            },
            Node::Internal(children) => {
                let (subregion, index) = region.get_subsection(coord);
                children[index].remove(id, coord, subregion);
                assert(Node::Internal(*children)@->Split_0 =~= old(self)@->Split_0.update(
                    index as int,
                    children@[index as int]@,
                ));
                if children[0].is_empty() && children[1].is_empty() && children[2].is_empty()
                    && children[3].is_empty() {
                    *self = Node::Leaf(Vec::new());
                }
            },
        }
    }
    /// Whether all of `batch` can be inserted, one entry after the other.
    /// Nothing is changed.
    pub fn accepts_all(&self, batch: &Vec<NodeInner>, region: Bounds) -> (b: bool)
        requires
            self.wf(),
        ensures
            b == self@.accepts_all(batch@, region),
        decreases self,
    {
        match self {
            Node::Leaf(entries) => {
                if batch.len() <= LEAF_CAPACITY - entries.len() {
                    true
                } else {
                    try_subdivide(concat(entries, batch), region).is_some()
                }
            },
            Node::Internal(children) => {
                let mut index: usize = 0;
                while index < 4
                    invariant
                        index <= 4,
                        self.wf(),
                        *self == Node::Internal(*children),
                        forall|i: int|
                            0 <= i < index ==> (#[trigger] self@->Split_0[i]).accepts_all(
                                part(batch@, region, i),
                                region.quadrant(i),
                            ),
                    decreases 4 - index,
                {
                    let subset = partition(batch, region, index);
                    let subregion = region.section_by_index(index);
                    if subset.len() == 0 {
                        proof {
                            self@->Split_0[index as int].lemma_insert_nothing(subset@, subregion);
                        }
                    } else if !children[index].accepts_all(&subset, subregion) {
                        return false;
                    }
                    index += 1;
                }
                true
            },
        }
    }

    /// Inserts all of `batch`, one entry after the other.
    pub fn insert_all(&mut self, batch: &Vec<NodeInner>, region: Bounds)
        requires
            old(self).wf(),
            old(self)@.accepts_all(batch@, region),
        ensures
            final(self).wf(),
            final(self)@ == old(self)@.insert_all(batch@, region),
        decreases *old(self),
    {
        proof {
            old(self)@.lemma_insert_all(batch@, region);
        }
        match self {
            Node::Leaf(entries) => {
                let all = concat(entries, batch);
                if all.len() <= LEAF_CAPACITY {
                    *entries = all;
                } else {
                    match try_subdivide(all, region) {
                        Some(node) => {
                            *self = node;
                        },
                        None => {},
                    }
                }
            },
            Node::Internal(children) => {
                let ghost before = old(self)@->Split_0;
                let mut index: usize = 0;
                while index < 4
                    invariant
                        index <= 4,
                        children.len() == 4,
                        before.len() == 4,
                        forall|i: int| 0 <= i < 4 ==> (#[trigger] before[i]).wf(),
                        forall|i: int|
                            0 <= i < 4 ==> (#[trigger] before[i]).accepts_all(
                                part(batch@, region, i),
                                region.quadrant(i),
                            ),
                        forall|i: int|
                            0 <= i < index ==> (#[trigger] children@[i])@ == before[i].insert_all(
                                part(batch@, region, i),
                                region.quadrant(i),
                            ),
                        *old(self) is Internal,
                        old(self)->Internal_0@.len() == 4,
                        forall|i: int|
                            index <= i < 4 ==> #[trigger] children@[i] == old(self)->Internal_0@[i],
                        forall|i: int| 0 <= i < 4 ==> (#[trigger] old(self)->Internal_0@[i])@
                            == before[i],
                    decreases 4 - index,
                {
                    let subset = partition(batch, region, index);
                    let subregion = region.section_by_index(index);
                    if subset.len() == 0 {
                        proof {
                            before[index as int].lemma_insert_nothing(subset@, subregion);
                        }
                    } else {
                        children[index].insert_all(&subset, subregion);
                    }
                    index += 1;
                }
                assert(Node::Internal(*children)@->Split_0 =~= old(self)@.insert_all(
                    batch@,
                    region,
                )->Split_0);
            },
        }
    }

    /// The number of entries in all leaves, or the largest number that can
    /// be told where there are more.
    pub fn point_count(&self) -> (n: usize)
        requires
            self.wf(),
        ensures
            n == if self@.count() <= usize::MAX {
                self@.count() as int
            } else {
                usize::MAX as int
            },
        decreases self,
    {
        match self {
            Node::Leaf(entries) => entries.len(),
            Node::Internal(children) => {
                let a = children[0].point_count();
                let b = children[1].point_count();
                let c = children[2].point_count();
                let d = children[3].point_count();
                a.saturating_add(b).saturating_add(c).saturating_add(d)
            },
        }
    }

    /// Appends the region of every node below and including this one to
    /// `rects`: each node before its children, the children by quadrant
    /// index.
    pub fn regions(&self, region: Bounds, rects: &mut Vec<Bounds>)
        requires
            self.wf(),
        ensures
            final(rects)@ == old(rects)@ + self@.regions(region),
        decreases self,
    {
        rects.push(region);
        match self {
            Node::Leaf(_) => {},
            Node::Internal(children) => {
                let mut index: usize = 0;
                let ghost mut seen: Seq<Bounds> = seq![region];
                while index < 4
                    invariant
                        index <= 4,
                        self.wf(),
                        *self == Node::Internal(*children),
                        rects@ == old(rects)@ + seen,
                        index == 0 ==> seen == seq![region],
                        index == 1 ==> seen == seq![region] + self@->Split_0[0].regions(
                            region.quadrant(0),
                        ),
                        index == 2 ==> seen == seq![region] + self@->Split_0[0].regions(
                            region.quadrant(0),
                        ) + self@->Split_0[1].regions(region.quadrant(1)),
                        index == 3 ==> seen == seq![region] + self@->Split_0[0].regions(
                            region.quadrant(0),
                        ) + self@->Split_0[1].regions(region.quadrant(1))
                            + self@->Split_0[2].regions(region.quadrant(2)),
                        index == 4 ==> seen == self@.regions(region),
                    decreases 4 - index,
                {
                    let subregion = region.section_by_index(index);
                    let ghost sub = self@->Split_0[index as int].regions(subregion);
                    children[index].regions(subregion, rects);
                    proof {
                        assert(rects@ == old(rects)@ + (seen + sub)) by {
                            assert(old(rects)@ + seen + sub =~= old(rects)@ + (seen + sub));
                        }
                        seen = seen + sub;
                    }
                    index += 1;
                }
            },
        }
    }
}

} // verus!
