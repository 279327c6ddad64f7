//! How many entries lie on one point of the grid, and why that alone decides
//! whether entries inside a region can be separated.

use crate::bounds::{Bounds, Coord};
use crate::quad::{in_quadrant, part, separable, NodeInner, Quad, LEAF_CAPACITY};
use crate::routing::{lemma_filter_has, lemma_filter_keeps_all};
use vstd::prelude::*;

verus! {

/// Holds of the entries that lie on the point `spot`.
pub open spec fn at(spot: Coord) -> spec_fn(NodeInner) -> bool {
    |e: NodeInner| e.coord == spot
}

/// The number of entries that lie on the point `spot`.
pub open spec fn count_at(entries: Seq<NodeInner>, spot: Coord) -> nat {
    entries.filter(at(spot)).len()
}

/// No point holds more entries than a leaf holds.
pub open spec fn roomy(entries: Seq<NodeInner>) -> bool {
    forall|spot: Coord| #[trigger] count_at(entries, spot) <= LEAF_CAPACITY
}

/// All entries lie inside the region.
pub open spec fn all_inside(entries: Seq<NodeInner>, region: Bounds) -> bool {
    forall|i: int| 0 <= i < entries.len() ==> region.has_point(#[trigger] entries[i].coord)
}

/// The entries on a point are found in the part of the quadrant that the
/// point belongs to, and in no other part.
pub proof fn lemma_count_at_part(entries: Seq<NodeInner>, region: Bounds, q: int, spot: Coord)
    ensures
        count_at(part(entries, region, q), spot) == if region.quadrant_of(spot) == q {
            count_at(entries, spot)
        } else {
            0
        },
    decreases entries.len(),
{
    if entries.len() == 0 {
        entries.lemma_filter_len(in_quadrant(region, q));
        entries.lemma_filter_len(at(spot));
        part(entries, region, q).lemma_filter_len(at(spot));
    } else {
        let init = entries.drop_last();
        let last = entries.last();
        assert(entries =~= init.push(last));
        lemma_count_at_part(init, region, q, spot);
        init.lemma_filter_push(last, in_quadrant(region, q));
        init.lemma_filter_push(last, at(spot));
        part(init, region, q).lemma_filter_push(last, at(spot));
    }
}

/// The entries of two pieces on a point are those of the one and those of
/// the other.
pub proof fn lemma_count_at_pieces(head: Seq<NodeInner>, tail: Seq<NodeInner>, spot: Coord)
    ensures
        count_at(head + tail, spot) == count_at(head, spot) + count_at(tail, spot),
{
    Seq::filter_distributes_over_add(head, tail, at(spot));
}

/// The entries of a part of entries inside a well-formed region lie inside
/// the quadrant of the part, which is well-formed.
pub proof fn lemma_part_inside(entries: Seq<NodeInner>, region: Bounds, q: int)
    requires
        region.wf(),
        all_inside(entries, region),
        0 <= q < 4,
    ensures
        region.quadrant(q).wf(),
        all_inside(part(entries, region, q), region.quadrant(q)),
{
    region.lemma_quadrant_wf(q);
    let kept = part(entries, region, q);
    assert forall|i: int| 0 <= i < kept.len() implies region.quadrant(q).has_point(
        #[trigger] kept[i].coord,
    ) by {
        entries.lemma_filter_pred(in_quadrant(region, q), i);
        assert(kept.contains(kept[i]));
        lemma_filter_has(entries, in_quadrant(region, q), kept[i]);
        let j = choose|j: int| 0 <= j < entries.len() && entries[j] == kept[i];
        assert(region.has_point(entries[j].coord));
        region.lemma_quadrant_keeps_point(kept[i].coord);
    }
}

/// Where entries inside a well-formed region can be separated, no point
/// holds more of them than a leaf holds.
pub proof fn lemma_separable_is_roomy(entries: Seq<NodeInner>, region: Bounds, spot: Coord)
    requires
        region.wf(),
        all_inside(entries, region),
        separable(entries, region),
    ensures
        count_at(entries, spot) <= LEAF_CAPACITY,
    decreases region.span(),
{
    entries.lemma_filter_len(at(spot));
    if entries.len() > LEAF_CAPACITY {
        let q = region.quadrant_of(spot);
        lemma_count_at_part(entries, region, q, spot);
        part(entries, region, q).lemma_filter_len(at(spot));
        if region.spec_divisible() {
            lemma_part_inside(entries, region, q);
            region.lemma_quadrant_span(q);
            lemma_separable_is_roomy(part(entries, region, q), region.quadrant(q), spot);
        }
    }
}

/// Where no point holds more entries than a leaf holds, entries inside a
/// well-formed region can be separated.
pub proof fn lemma_roomy_is_separable(entries: Seq<NodeInner>, region: Bounds)
    requires
        region.wf(),
        all_inside(entries, region),
        roomy(entries),
    ensures
        separable(entries, region),
    decreases region.span(),
{
    if entries.len() > LEAF_CAPACITY {
        assert forall|q: int| 0 <= q < 4 implies roomy(#[trigger] part(entries, region, q)) by {
            assert forall|spot: Coord| #[trigger]
                count_at(part(entries, region, q), spot) <= LEAF_CAPACITY by {
                lemma_count_at_part(entries, region, q, spot);
                assert(count_at(entries, spot) <= LEAF_CAPACITY);
            }
        }
        if region.spec_divisible() {
            lemma_part_inside(entries, region, 0);
            lemma_part_inside(entries, region, 1);
            lemma_part_inside(entries, region, 2);
            lemma_part_inside(entries, region, 3);
            region.lemma_quadrant_span(0);
            region.lemma_quadrant_span(1);
            region.lemma_quadrant_span(2);
            region.lemma_quadrant_span(3);
            lemma_roomy_is_separable(part(entries, region, 0), region.quadrant(0));
            lemma_roomy_is_separable(part(entries, region, 1), region.quadrant(1));
            lemma_roomy_is_separable(part(entries, region, 2), region.quadrant(2));
            lemma_roomy_is_separable(part(entries, region, 3), region.quadrant(3));
        } else {
            lemma_cell_part(entries, region, 0);
            lemma_cell_part(entries, region, 1);
            lemma_cell_part(entries, region, 2);
            lemma_cell_part(entries, region, 3);
        }
    }
}

/// In a well-formed region that cannot be halved, the entries of a part
/// lie on one point, so that the part fits into a leaf where no point
/// holds more than a leaf holds.
proof fn lemma_cell_part(entries: Seq<NodeInner>, region: Bounds, q: int)
    requires
        region.wf(),
        !region.spec_divisible(),
        all_inside(entries, region),
        roomy(part(entries, region, q)),
        0 <= q < 4,
    ensures
        part(entries, region, q).len() <= LEAF_CAPACITY,
{
    let kept = part(entries, region, q);
    if kept.len() > 0 {
        let spot = kept[0].coord;
        lemma_part_inside(entries, region, q);
        assert forall|i: int| 0 <= i < kept.len() implies at(spot)(#[trigger] kept[i]) by {
            entries.lemma_filter_pred(in_quadrant(region, q), i);
            entries.lemma_filter_pred(in_quadrant(region, q), 0);
            assert(kept.contains(kept[i]));
            lemma_filter_has(entries, in_quadrant(region, q), kept[i]);
            let j = choose|j: int| 0 <= j < entries.len() && entries[j] == kept[i];
            assert(region.has_point(entries[j].coord));
            assert(kept.contains(kept[0]));
            lemma_filter_has(entries, in_quadrant(region, q), kept[0]);
            let k = choose|k: int| 0 <= k < entries.len() && entries[k] == kept[0];
            assert(region.has_point(entries[k].coord));
            region.law_indivisible_rectangle_parts_its_points(kept[i].coord, spot);
        }
        lemma_filter_keeps_all(kept, at(spot));
        assert(count_at(kept, spot) <= LEAF_CAPACITY);
    }
}

/// Entries inside a well-formed region can be separated if and only if no
/// point of the grid holds more of them than a leaf holds.
pub proof fn law_separable_unless_crowded(entries: Seq<NodeInner>, region: Bounds)
    requires
        region.wf(),
        all_inside(entries, region),
    ensures
        separable(entries, region) <==> roomy(entries),
{
    if separable(entries, region) {
        assert forall|spot: Coord| #[trigger] count_at(entries, spot) <= LEAF_CAPACITY by {
            lemma_separable_is_roomy(entries, region, spot);
        }
    }
    if roomy(entries) {
        lemma_roomy_is_separable(entries, region);
    }
}

impl Quad {
    /// The number of entries in all leaves that lie on the point `spot`.
    pub open spec fn count_at(self, spot: Coord) -> nat
        decreases self,
    {
        match self {
            Quad::Leaf(entries) => count_at(entries, spot),
            Quad::Split(children) => if children.len() == 4 {
                children[0].count_at(spot) + children[1].count_at(spot) + children[2].count_at(
                    spot,
                ) + children[3].count_at(spot)
            } else {
                0
            },
        }
    }

    /// Every entry lies inside the region.
    pub open spec fn within(self, region: Bounds) -> bool {
        forall|entry: NodeInner| #[trigger] self.has(entry) ==> region.has_point(entry.coord)
    }

    /// A tree that stores no entry on a point counts none there.
    pub proof fn lemma_count_at_absent(self, spot: Coord)
        requires
            forall|entry: NodeInner| #[trigger] self.has(entry) ==> entry.coord != spot,
        ensures
            self.count_at(spot) == 0,
        decreases self,
    {
        match self {
            Quad::Leaf(entries) => {
                let found = entries.filter(at(spot));
                if found.len() > 0 {
                    assert(found.contains(found[0]));
                    lemma_filter_has(entries, at(spot), found[0]);
                    assert(self.has(found[0]));
                }
            },
            Quad::Split(children) => {
                if children.len() == 4 {
                    assert forall|entry: NodeInner, q: int|
                        0 <= q < 4 && #[trigger] children[q].has(entry) implies entry.coord
                        != spot by {
                        assert(self.has(entry));
                    }
                    children[0].lemma_count_at_absent(spot);
                    children[1].lemma_count_at_absent(spot);
                    children[2].lemma_count_at_absent(spot);
                    children[3].lemma_count_at_absent(spot);
                }
            },
        }
    }

    /// The children of an internal node whose entries are where they are
    /// routed to and inside its well-formed region have their entries
    /// inside their quadrants, and the entries on a point are all in the
    /// child of the quadrant that the point belongs to.
    pub proof fn lemma_children(self, region: Bounds, q: int, spot: Coord)
        requires
            self.wf(),
            self is Split,
            self.routed(region),
            self.within(region),
            region.wf(),
            0 <= q < 4,
        ensures
            self->Split_0[q].wf(),
            self->Split_0[q].routed(region.quadrant(q)),
            self->Split_0[q].within(region.quadrant(q)),
            region.quadrant(q).wf(),
            region.quadrant_of(spot) != q ==> self->Split_0[q].count_at(spot) == 0,
            self.count_at(spot) == self->Split_0[region.quadrant_of(spot)].count_at(spot),
    {
        let children = self->Split_0;
        region.lemma_quadrant_wf(q);
        assert forall|entry: NodeInner| #[trigger] children[q].has(entry) implies region.quadrant(
            q,
        ).has_point(entry.coord) by {
            assert(self.has(entry));
            region.lemma_quadrant_keeps_point(entry.coord);
        }
        assert forall|p: int| 0 <= p < 4 && region.quadrant_of(spot) != p implies (
        #[trigger] children[p]).count_at(spot) == 0 by {
            assert forall|entry: NodeInner| #[trigger] children[p].has(entry) implies entry.coord
                != spot by {}
            children[p].lemma_count_at_absent(spot);
        }
        assert(children[0].count_at(spot) >= 0);
    }
}

/// The number of entries that lie on `spot` once `batch` is in the tree.
pub open spec fn load(tree: Quad, batch: Seq<NodeInner>, spot: Coord) -> nat {
    tree.count_at(spot) + count_at(batch, spot)
}

/// With `batch` in the tree, no point holds more entries than a leaf holds.
pub open spec fn fits(tree: Quad, batch: Seq<NodeInner>) -> bool {
    forall|spot: Coord| #[trigger] load(tree, batch, spot) <= LEAF_CAPACITY
}

/// Where a batch is accepted, no point holds more entries than a leaf holds
/// once the batch is in.
pub proof fn lemma_accepted_fits(tree: Quad, batch: Seq<NodeInner>, region: Bounds, spot: Coord)
    requires
        tree.wf(),
        tree.routed(region),
        tree.within(region),
        region.wf(),
        all_inside(batch, region),
        tree.accepts_all(batch, region),
    ensures
        load(tree, batch, spot) <= LEAF_CAPACITY,
    decreases tree,
{
    match tree {
        Quad::Leaf(entries) => {
            assert forall|i: int| 0 <= i < (entries + batch).len() implies region.has_point(
                #[trigger] (entries + batch)[i].coord,
            ) by {
                if i < entries.len() {
                    assert(entries.contains(entries[i]));
                    assert(tree.has(entries[i]));
                }
            }
            lemma_separable_is_roomy(entries + batch, region, spot);
            lemma_count_at_pieces(entries, batch, spot);
        },
        Quad::Split(children) => {
            let q = region.quadrant_of(spot);
            tree.lemma_children(region, q, spot);
            lemma_part_inside(batch, region, q);
            lemma_count_at_part(batch, region, q, spot);
            lemma_accepted_fits(children[q], part(batch, region, q), region.quadrant(q), spot);
        },
    }
}

/// Where no point holds more entries than a leaf holds once a batch is in,
/// the batch is accepted.
pub proof fn lemma_fitting_is_accepted(tree: Quad, batch: Seq<NodeInner>, region: Bounds)
    requires
        tree.wf(),
        tree.routed(region),
        tree.within(region),
        region.wf(),
        all_inside(batch, region),
        fits(tree, batch),
    ensures
        tree.accepts_all(batch, region),
    decreases tree,
{
    match tree {
        Quad::Leaf(entries) => {
            assert forall|i: int| 0 <= i < (entries + batch).len() implies region.has_point(
                #[trigger] (entries + batch)[i].coord,
            ) by {
                if i < entries.len() {
                    assert(entries.contains(entries[i]));
                    assert(tree.has(entries[i]));
                }
            }
            assert forall|spot: Coord| #[trigger]
                count_at(entries + batch, spot) <= LEAF_CAPACITY by {
                lemma_count_at_pieces(entries, batch, spot);
                assert(load(tree, batch, spot) <= LEAF_CAPACITY);
            }
            lemma_roomy_is_separable(entries + batch, region);
        },
        Quad::Split(children) => {
            assert forall|q: int| 0 <= q < 4 implies (#[trigger] children[q]).accepts_all(
                part(batch, region, q),
                region.quadrant(q),
            ) by {
                lemma_part_inside(batch, region, q);
                assert forall|spot: Coord| #[trigger]
                    load(children[q], part(batch, region, q), spot) <= LEAF_CAPACITY by {
                    tree.lemma_children(region, q, spot);
                    lemma_count_at_part(batch, region, q, spot);
                    assert(load(tree, batch, spot) <= LEAF_CAPACITY);
                }
                tree.lemma_children(region, q, region.top_left);
                lemma_fitting_is_accepted(
                    children[q],
                    part(batch, region, q),
                    region.quadrant(q),
                );
            }
        },
    }
}

/// A tree that has its entries where they are routed to, inside its
/// well-formed region, accepts a batch of entries inside the region if and
/// only if no point of the grid would hold more entries than a leaf holds.
pub proof fn law_accepted_unless_crowded(tree: Quad, batch: Seq<NodeInner>, region: Bounds)
    requires
        tree.wf(),
        tree.routed(region),
        tree.within(region),
        region.wf(),
        all_inside(batch, region),
    ensures
        tree.accepts_all(batch, region) <==> fits(tree, batch),
{
    if tree.accepts_all(batch, region) {
        assert forall|spot: Coord| #[trigger] load(tree, batch, spot) <= LEAF_CAPACITY by {
            lemma_accepted_fits(tree, batch, region, spot);
        }
    }
    if fits(tree, batch) {
        lemma_fitting_is_accepted(tree, batch, region);
    }
}

} // verus!
