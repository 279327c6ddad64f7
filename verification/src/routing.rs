//! Where the entries of a tree are: every entry sits in the leaf that its
//! position is routed to, and insertion and removal keep it so. This is what
//! lets a removal find again what an insertion has put in.

use crate::bounds::{Bounds, Coord};
use crate::quad::{in_quadrant, other_than, part, subdivide, NodeInner, Quad, LEAF_CAPACITY};
use vstd::prelude::*;

verus! {

/// The number of entries of the entity `id` among `entries`.
pub open spec fn count_id(entries: Seq<NodeInner>, id: u64) -> nat {
    (entries.len() - entries.filter(other_than(id)).len()) as nat
}

/// What is kept of a sequence is what was there and meets the condition.
pub proof fn lemma_filter_has(
    entries: Seq<NodeInner>,
    keep: spec_fn(NodeInner) -> bool,
    entry: NodeInner,
)
    ensures
        entries.filter(keep).contains(entry) <==> entries.contains(entry) && keep(entry),
    decreases entries.len(),
{
    broadcast use vstd::seq_lib::lemma_seq_contains_after_push;

    if entries.len() == 0 {
        entries.lemma_filter_len(keep);
    } else {
        let init = entries.drop_last();
        let last = entries.last();
        assert(entries =~= init.push(last));
        lemma_filter_has(init, keep, entry);
        init.lemma_filter_push(last, keep);
    }
}

/// Where every entry meets the condition, all of them are kept.
pub proof fn lemma_filter_keeps_all(entries: Seq<NodeInner>, keep: spec_fn(NodeInner) -> bool)
    requires
        forall|i: int| 0 <= i < entries.len() ==> keep(#[trigger] entries[i]),
    ensures
        entries.filter(keep) == entries,
    decreases entries.len(),
{
    if entries.len() == 0 {
        entries.lemma_filter_len(keep);
        assert(entries.filter(keep) =~= entries);
    } else {
        let init = entries.drop_last();
        let last = entries.last();
        assert(entries =~= init.push(last));
        assert forall|i: int| 0 <= i < init.len() implies keep(#[trigger] init[i]) by {
            assert(init[i] == entries[i]);
        }
        lemma_filter_keeps_all(init, keep);
        init.lemma_filter_push(last, keep);
    }
}

/// The entries of an entity are spread over the four parts.
pub proof fn lemma_count_id_of_parts(entries: Seq<NodeInner>, region: Bounds, id: u64)
    ensures
        count_id(part(entries, region, 0), id) + count_id(part(entries, region, 1), id) + count_id(
            part(entries, region, 2),
            id,
        ) + count_id(part(entries, region, 3), id) == count_id(entries, id),
    decreases entries.len(),
{
    let part0 = part(entries, region, 0);
    let part1 = part(entries, region, 1);
    let part2 = part(entries, region, 2);
    let part3 = part(entries, region, 3);
    part0.lemma_filter_len(other_than(id));
    part1.lemma_filter_len(other_than(id));
    part2.lemma_filter_len(other_than(id));
    part3.lemma_filter_len(other_than(id));
    entries.lemma_filter_len(other_than(id));
    if entries.len() == 0 {
        entries.lemma_filter_len(in_quadrant(region, 0));
        entries.lemma_filter_len(in_quadrant(region, 1));
        entries.lemma_filter_len(in_quadrant(region, 2));
        entries.lemma_filter_len(in_quadrant(region, 3));
    } else {
        let init = entries.drop_last();
        let last = entries.last();
        assert(entries =~= init.push(last));
        lemma_count_id_of_parts(init, region, id);
        init.lemma_filter_push(last, in_quadrant(region, 0));
        init.lemma_filter_push(last, in_quadrant(region, 1));
        init.lemma_filter_push(last, in_quadrant(region, 2));
        init.lemma_filter_push(last, in_quadrant(region, 3));
        init.lemma_filter_push(last, other_than(id));
        part(init, region, 0).lemma_filter_push(last, other_than(id));
        part(init, region, 1).lemma_filter_push(last, other_than(id));
        part(init, region, 2).lemma_filter_push(last, other_than(id));
        part(init, region, 3).lemma_filter_push(last, other_than(id));
        part(init, region, 0).lemma_filter_len(other_than(id));
        part(init, region, 1).lemma_filter_len(other_than(id));
        part(init, region, 2).lemma_filter_len(other_than(id));
        part(init, region, 3).lemma_filter_len(other_than(id));
        init.lemma_filter_len(other_than(id));
    }
}

impl Quad {
    /// Whether `entry` is stored in one of the leaves.
    pub open spec fn has(self, entry: NodeInner) -> bool
        decreases self,
    {
        match self {
            Quad::Leaf(entries) => entries.contains(entry),
            Quad::Split(children) => {
                &&& children.len() == 4
                &&& (children[0].has(entry) || children[1].has(entry) || children[2].has(entry)
                    || children[3].has(entry))
            },
        }
    }

    /// Every entry is stored in the leaf that `region` routes its position
    /// to.
    pub open spec fn routed(self, region: Bounds) -> bool
        decreases self,
    {
        match self {
            Quad::Leaf(_) => true,
            Quad::Split(children) => {
                &&& children.len() == 4
                &&& children[0].routed(region.quadrant(0))
                &&& children[1].routed(region.quadrant(1))
                &&& children[2].routed(region.quadrant(2))
                &&& children[3].routed(region.quadrant(3))
                &&& forall|entry: NodeInner, q: int|
                    0 <= q < 4 && #[trigger] children[q].has(entry) ==> region.quadrant_of(
                        entry.coord,
                    ) == q
            },
        }
    }

    /// A tree without entries stores nothing, and no more entries of one
    /// entity than entries.
    pub proof fn lemma_count_bounds(self, entry: NodeInner)
        ensures
            self.count_of(entry.id) <= self.count(),
            self.has(entry) ==> self.count_of(entry.id) > 0,
        decreases self,
    {
        match self {
            Quad::Leaf(entries) => {
                entries.lemma_filter_len(other_than(entry.id));
                if entries.contains(entry) {
                    if entries.filter(other_than(entry.id)).len() == entries.len() {
                        lemma_filter_same_len(entries, other_than(entry.id));
                        lemma_filter_has(entries, other_than(entry.id), entry);
                    }
                }
            },
            Quad::Split(children) => {
                if children.len() == 4 {
                    children[0].lemma_count_bounds(entry);
                    children[1].lemma_count_bounds(entry);
                    children[2].lemma_count_bounds(entry);
                    children[3].lemma_count_bounds(entry);
                }
            },
        }
    }

    /// A tree that stores no entry of an entity counts none of it.
    pub proof fn lemma_count_of_absent(self, id: u64)
        requires
            forall|entry: NodeInner| #[trigger] self.has(entry) ==> entry.id != id,
        ensures
            self.count_of(id) == 0,
        decreases self,
    {
        match self {
            Quad::Leaf(entries) => {
                assert forall|i: int| 0 <= i < entries.len() implies other_than(id)(
                    #[trigger] entries[i],
                ) by {
                    assert(entries.contains(entries[i]));
                    assert(self.has(entries[i]));
                }
                lemma_filter_keeps_all(entries, other_than(id));
            },
            Quad::Split(children) => {
                if children.len() == 4 {
                    assert forall|entry: NodeInner, q: int|
                        0 <= q < 4 && #[trigger] children[q].has(entry) implies entry.id != id by {
                        assert(self.has(entry));
                    }
                    children[0].lemma_count_of_absent(id);
                    children[1].lemma_count_of_absent(id);
                    children[2].lemma_count_of_absent(id);
                    children[3].lemma_count_of_absent(id);
                }
            },
        }
    }
}

/// Where nothing is dropped, everything is kept.
pub proof fn lemma_filter_same_len(entries: Seq<NodeInner>, keep: spec_fn(NodeInner) -> bool)
    requires
        entries.filter(keep).len() == entries.len(),
    ensures
        entries.filter(keep) == entries,
    decreases entries.len(),
{
    if entries.len() == 0 {
        assert(entries.filter(keep) =~= entries);
    } else {
        let init = entries.drop_last();
        let last = entries.last();
        assert(entries =~= init.push(last));
        init.lemma_filter_push(last, keep);
        init.lemma_filter_len(keep);
        lemma_filter_same_len(init, keep);
    }
}

/// The tree that holds `entries` stores exactly them.
pub proof fn lemma_subdivide_has(entries: Seq<NodeInner>, region: Bounds, entry: NodeInner)
    ensures
        subdivide(entries, region).has(entry) <==> entries.contains(entry),
    decreases region.span(),
{
    if entries.len() > LEAF_CAPACITY && region.spec_divisible() {
        region.lemma_quadrant_span(0);
        region.lemma_quadrant_span(1);
        region.lemma_quadrant_span(2);
        region.lemma_quadrant_span(3);
        lemma_subdivide_has(part(entries, region, 0), region.quadrant(0), entry);
        lemma_subdivide_has(part(entries, region, 1), region.quadrant(1), entry);
        lemma_subdivide_has(part(entries, region, 2), region.quadrant(2), entry);
        lemma_subdivide_has(part(entries, region, 3), region.quadrant(3), entry);
        lemma_filter_has(entries, in_quadrant(region, 0), entry);
        lemma_filter_has(entries, in_quadrant(region, 1), entry);
        lemma_filter_has(entries, in_quadrant(region, 2), entry);
        lemma_filter_has(entries, in_quadrant(region, 3), entry);
    } else if entries.len() > LEAF_CAPACITY {
        lemma_filter_has(entries, in_quadrant(region, 0), entry);
        lemma_filter_has(entries, in_quadrant(region, 1), entry);
        lemma_filter_has(entries, in_quadrant(region, 2), entry);
        lemma_filter_has(entries, in_quadrant(region, 3), entry);
        assert(Quad::Leaf(part(entries, region, 0)).has(entry) == part(entries, region, 0).contains(
            entry,
        ));
        assert(Quad::Leaf(part(entries, region, 1)).has(entry) == part(entries, region, 1).contains(
            entry,
        ));
        assert(Quad::Leaf(part(entries, region, 2)).has(entry) == part(entries, region, 2).contains(
            entry,
        ));
        assert(Quad::Leaf(part(entries, region, 3)).has(entry) == part(entries, region, 3).contains(
            entry,
        ));
    }
}

/// The tree that holds `entries` has each of them where it is routed to, and
/// counts the entries of every entity.
pub proof fn lemma_subdivide_routed(entries: Seq<NodeInner>, region: Bounds, id: u64)
    ensures
        subdivide(entries, region).routed(region),
        subdivide(entries, region).count_of(id) == count_id(entries, id),
    decreases region.span(),
{
    if entries.len() > LEAF_CAPACITY && region.spec_divisible() {
        region.lemma_quadrant_span(0);
        region.lemma_quadrant_span(1);
        region.lemma_quadrant_span(2);
        region.lemma_quadrant_span(3);
        lemma_subdivide_routed(part(entries, region, 0), region.quadrant(0), id);
        lemma_subdivide_routed(part(entries, region, 1), region.quadrant(1), id);
        lemma_subdivide_routed(part(entries, region, 2), region.quadrant(2), id);
        lemma_subdivide_routed(part(entries, region, 3), region.quadrant(3), id);
        lemma_count_id_of_parts(entries, region, id);
        let children = subdivide(entries, region)->Split_0;
        assert forall|entry: NodeInner, q: int|
            0 <= q < 4 && #[trigger] children[q].has(entry) implies region.quadrant_of(entry.coord)
            == q by {
            lemma_subdivide_has(part(entries, region, q), region.quadrant(q), entry);
            lemma_filter_has(entries, in_quadrant(region, q), entry);
        }
    } else if entries.len() > LEAF_CAPACITY {
        lemma_count_id_of_parts(entries, region, id);
        let children = subdivide(entries, region)->Split_0;
        assert(children[0].routed(region.quadrant(0)));
        assert(children[1].routed(region.quadrant(1)));
        assert(children[2].routed(region.quadrant(2)));
        assert(children[3].routed(region.quadrant(3)));
        assert(children[0].count_of(id) == count_id(part(entries, region, 0), id));
        assert(children[1].count_of(id) == count_id(part(entries, region, 1), id));
        assert(children[2].count_of(id) == count_id(part(entries, region, 2), id));
        assert(children[3].count_of(id) == count_id(part(entries, region, 3), id));
        assert forall|entry: NodeInner, q: int|
            0 <= q < 4 && #[trigger] children[q].has(entry) implies region.quadrant_of(entry.coord)
            == q by {
            assert(part(entries, region, q).contains(entry));
            lemma_filter_has(entries, in_quadrant(region, q), entry);
        }
    } else {
        entries.lemma_filter_len(other_than(id));
    }
}

/// Deleting the entries of one entity leaves those of every other entity,
/// and none of its own.
pub proof fn lemma_count_id_after_removal(entries: Seq<NodeInner>, id: u64, other: u64)
    requires
        other != id,
    ensures
        count_id(entries.filter(other_than(id)), other) == count_id(entries, other),
        count_id(entries.filter(other_than(id)), id) == 0,
    decreases entries.len(),
{
    let kept = entries.filter(other_than(id));
    kept.lemma_filter_len(other_than(other));
    entries.lemma_filter_len(other_than(other));
    entries.lemma_filter_len(other_than(id));
    assert forall|i: int| 0 <= i < kept.len() implies other_than(id)(#[trigger] kept[i]) by {
        entries.lemma_filter_pred(other_than(id), i);
    }
    lemma_filter_keeps_all(kept, other_than(id));
    if entries.len() > 0 {
        let init = entries.drop_last();
        let last = entries.last();
        assert(entries =~= init.push(last));
        lemma_count_id_after_removal(init, id, other);
        init.lemma_filter_push(last, other_than(id));
        init.lemma_filter_push(last, other_than(other));
        init.filter(other_than(id)).lemma_filter_push(last, other_than(other));
        init.filter(other_than(id)).lemma_filter_len(other_than(other));
        init.lemma_filter_len(other_than(other));
        init.lemma_filter_len(other_than(id));
    }
}

impl Quad {
    /// After an accepted insertion the tree stores what it stored, and the
    /// new entry.
    pub proof fn lemma_insert_has(self, added: NodeInner, region: Bounds, entry: NodeInner)
        requires
            self.wf(),
        ensures
            self.insert(added, region).has(entry) <==> self.has(entry) || entry == added,
        decreases self,
    {
        broadcast use vstd::seq_lib::lemma_seq_contains_after_push;

        match self {
            Quad::Leaf(entries) => {
                lemma_subdivide_has(entries.push(added), region, entry);
            },
            Quad::Split(children) => {
                let q = region.quadrant_of(added.coord);
                children[q].lemma_insert_has(added, region.quadrant(q), entry);
            },
        }
    }

    /// An accepted insertion keeps every entry where it is routed to, and
    /// adds one to the entries of the entity it belongs to.
    pub proof fn lemma_insert_routed(self, added: NodeInner, region: Bounds, id: u64)
        requires
            self.wf(),
            self.routed(region),
        ensures
            self.insert(added, region).routed(region),
            self.insert(added, region).count_of(id) == self.count_of(id) + if added.id == id {
                1nat
            } else {
                0nat
            },
        decreases self,
    {
        match self {
            Quad::Leaf(entries) => {
                lemma_subdivide_routed(entries.push(added), region, id);
                entries.lemma_filter_push(added, other_than(id));
                entries.lemma_filter_len(other_than(id));
            },
            Quad::Split(children) => {
                let q = region.quadrant_of(added.coord);
                children[q].lemma_insert_routed(added, region.quadrant(q), id);
                let after = self.insert(added, region)->Split_0;
                assert forall|entry: NodeInner, i: int|
                    0 <= i < 4 && #[trigger] after[i].has(entry) implies region.quadrant_of(
                    entry.coord,
                ) == i by {
                    if i == q {
                        children[q].lemma_insert_has(added, region.quadrant(q), entry);
                        if entry != added {
                            assert(children[q].has(entry));
                        }
                    } else {
                        assert(children[i].has(entry));
                    }
                }
            },
        }
    }

    /// A removal takes nothing but entries of the named entity.
    pub proof fn lemma_remove_has(self, id: u64, coord: Coord, region: Bounds, entry: NodeInner)
        requires
            self.wf(),
        ensures
            self.remove(id, coord, region).has(entry) ==> self.has(entry),
            self.has(entry) && entry.id != id ==> self.remove(id, coord, region).has(entry),
        decreases self,
    {
        match self {
            Quad::Leaf(entries) => {
                lemma_filter_has(entries, other_than(id), entry);
            },
            Quad::Split(children) => {
                let q = region.quadrant_of(coord);
                children[q].lemma_remove_has(id, coord, region.quadrant(q), entry);
                let pruned = Quad::Split(
                    children.update(q, children[q].remove(id, coord, region.quadrant(q))),
                );
                if self.has(entry) && entry.id != id {
                    assert(pruned.has(entry));
                    pruned.lemma_count_bounds(entry);
                }
            },
        }
    }

    /// A removal in a tree that has every entry where it is routed to keeps
    /// it so, and leaves no entry of the named entity at the named position.
    pub proof fn lemma_remove_routed(self, id: u64, coord: Coord, region: Bounds)
        requires
            self.wf(),
            self.routed(region),
        ensures
            self.remove(id, coord, region).routed(region),
            !self.remove(id, coord, region).has(NodeInner { id, coord }),
        decreases self,
    {
        let gone = NodeInner { id, coord };
        match self {
            Quad::Leaf(entries) => {
                lemma_filter_has(entries, other_than(id), gone);
            },
            Quad::Split(children) => {
                let q = region.quadrant_of(coord);
                let child = children[q].remove(id, coord, region.quadrant(q));
                children[q].lemma_remove_routed(id, coord, region.quadrant(q));
                let after = children.update(q, child);
                assert forall|entry: NodeInner, i: int|
                    0 <= i < 4 && #[trigger] after[i].has(entry) implies region.quadrant_of(
                    entry.coord,
                ) == i by {
                    if i == q {
                        children[q].lemma_remove_has(id, coord, region.quadrant(q), entry);
                        assert(children[q].has(entry));
                    } else {
                        assert(children[i].has(entry));
                    }
                }
                if Quad::Split(after).has(gone) {
                    let i = if after[0].has(gone) {
                        0int
                    } else if after[1].has(gone) {
                        1int
                    } else if after[2].has(gone) {
                        2int
                    } else {
                        3int
                    };
                    assert(after[i].has(gone));
                    assert(region.quadrant_of(gone.coord) == i);
                }
            },
        }
    }

    /// A removal takes as many entries as it takes entries of the named
    /// entity, and none of any other.
    pub proof fn lemma_remove_count(self, id: u64, coord: Coord, region: Bounds, other: u64)
        requires
            self.wf(),
            other != id,
        ensures
            self.count() - self.remove(id, coord, region).count() == self.count_of(id)
                - self.remove(id, coord, region).count_of(id),
            self.remove(id, coord, region).count_of(other) == self.count_of(other),
        decreases self,
    {
        match self {
            Quad::Leaf(entries) => {
                lemma_count_id_after_removal(entries, id, other);
                entries.lemma_filter_len(other_than(id));
            },
            Quad::Split(children) => {
                let q = region.quadrant_of(coord);
                children[q].lemma_remove_count(id, coord, region.quadrant(q), other);
                let pruned = Quad::Split(
                    children.update(q, children[q].remove(id, coord, region.quadrant(q))),
                );
                pruned.lemma_count_bounds(NodeInner { id, coord });
                pruned.lemma_count_bounds(NodeInner { id: other, coord });
            },
        }
    }
}

} // verus!
