//! What holds of the tree whatever is stored in it.

use crate::bounds::Bounds;
use crate::quad::{
    coincident, in_quadrant, lemma_subdivide, part, separable, subdivide, NodeInner, Quad,
    LEAF_CAPACITY,
};
use crate::quad::other_than;
use crate::error::InsertError;
use crate::spots::{all_inside, fits, law_accepted_unless_crowded};
use crate::tree::{corner_entries, remove_corners, TreeView, AABB};
use vstd::prelude::*;

verus! {

/// The part of the quadrant that all entries lie in is all of them.
proof fn lemma_part_of_one_quadrant(entries: Seq<NodeInner>, region: Bounds, index: int)
    requires
        forall|i: int| 0 <= i < entries.len() ==> region.quadrant_of(entries[i].coord) == index,
    ensures
        part(entries, region, index) == entries,
    decreases entries.len(),
{
    if entries.len() == 0 {
        entries.lemma_filter_len(in_quadrant(region, index));
        assert(part(entries, region, index) =~= entries);
    } else {
        let init = entries.drop_last();
        lemma_part_of_one_quadrant(init, region, index);
        assert(entries =~= init.push(entries.last()));
        init.lemma_filter_push(entries.last(), in_quadrant(region, index));
    }
}

/// More points than a leaf holds, all on one and the same spot, cannot be
/// separated, whatever the region.
pub proof fn law_coincident_points_are_inseparable(entries: Seq<NodeInner>, region: Bounds)
    requires
        coincident(entries),
        entries.len() > LEAF_CAPACITY,
    ensures
        !separable(entries, region),
    decreases region.span(),
{
    if region.spec_divisible() {
        let q = region.quadrant_of(entries[0].coord);
        assert forall|i: int| 0 <= i < entries.len() implies region.quadrant_of(entries[i].coord)
            == q by {
            assert(entries[i].coord == entries[0].coord);
        }
        lemma_part_of_one_quadrant(entries, region, q);
        region.lemma_quadrant_span(q);
        law_coincident_points_are_inseparable(entries, region.quadrant(q));
    } else {
        let q = region.quadrant_of(entries[0].coord);
        assert forall|i: int| 0 <= i < entries.len() implies region.quadrant_of(entries[i].coord)
            == q by {
            assert(entries[i].coord == entries[0].coord);
        }
        lemma_part_of_one_quadrant(entries, region, q);
    }
}

/// In a region that cannot be halved, entries that it assigns to one and
/// the same quadrant can be separated in that quadrant only where they fit
/// into one leaf.
proof fn lemma_stuck(entries: Seq<NodeInner>, region: Bounds, q: int)
    requires
        !region.spec_divisible(),
        0 <= q < 4,
        forall|i: int| 0 <= i < entries.len() ==> region.quadrant_of(entries[i].coord) == q,
    ensures
        separable(entries, region.quadrant(q)) <==> entries.len() <= LEAF_CAPACITY,
{
    let inner = region.quadrant(q);
    if entries.len() > LEAF_CAPACITY {
        region.lemma_indivisible_quadrant(q, entries[0].coord);
        assert forall|i: int| 0 <= i < entries.len() implies inner.quadrant_of(entries[i].coord)
            == q by {
            region.lemma_indivisible_quadrant(q, entries[i].coord);
        }
        lemma_part_of_one_quadrant(entries, inner, q);
    }
}

/// The entries of a part are assigned to the quadrant of the part.
proof fn lemma_part_is_of_its_quadrant(entries: Seq<NodeInner>, region: Bounds, q: int)
    ensures
        forall|i: int|
            0 <= i < part(entries, region, q).len() ==> region.quadrant_of(
                #[trigger] part(entries, region, q)[i].coord,
            ) == q,
{
    assert forall|i: int| 0 <= i < part(entries, region, q).len() implies region.quadrant_of(
        #[trigger] part(entries, region, q)[i].coord,
    ) == q by {
        entries.lemma_filter_pred(in_quadrant(region, q), i);
    }
}

/// A full leaf refuses an entry that lies on the spot where all its own
/// entries lie already.
pub proof fn law_full_leaf_refuses_coincident_entry(
    entries: Seq<NodeInner>,
    entry: NodeInner,
    region: Bounds,
)
    requires
        entries.len() == LEAF_CAPACITY,
        forall|i: int| 0 <= i < entries.len() ==> entries[i].coord == entry.coord,
    ensures
        !Quad::Leaf(entries).accepts(entry, region),
{
    law_coincident_points_are_inseparable(entries.push(entry), region);
}

/// A leaf with room accepts every entry and stays a leaf.
pub proof fn law_leaf_with_room_accepts(entries: Seq<NodeInner>, entry: NodeInner, region: Bounds)
    requires
        entries.len() < LEAF_CAPACITY,
    ensures
        Quad::Leaf(entries).accepts(entry, region),
        Quad::Leaf(entries).insert(entry, region) == Quad::Leaf(entries.push(entry)),
{
}

/// Inserting into a full leaf, where it is accepted, turns the leaf into an
/// internal node and keeps every entry.
pub proof fn law_full_leaf_splits(entries: Seq<NodeInner>, entry: NodeInner, region: Bounds)
    requires
        entries.len() == LEAF_CAPACITY,
        Quad::Leaf(entries).accepts(entry, region),
    ensures
        Quad::Leaf(entries).insert(entry, region) is Split,
        Quad::Leaf(entries).insert(entry, region).count() == LEAF_CAPACITY + 1,
        Quad::Leaf(entries).insert(entry, region).wf(),
{
    lemma_subdivide(entries.push(entry), region);
}

/// Where a full leaf gets one entry more and no quadrant of its region gets
/// more entries than a leaf holds, the entry is accepted, whatever the
/// region: the leaf is split once, and the four children are leaves that
/// hold the entries of their quadrants in the order of insertion.
pub proof fn law_full_leaf_splits_once(entries: Seq<NodeInner>, entry: NodeInner, region: Bounds)
    requires
        entries.len() == LEAF_CAPACITY,
        forall|q: int|
            0 <= q < 4 ==> (#[trigger] part(entries.push(entry), region, q)).len()
                <= LEAF_CAPACITY,
    ensures
        Quad::Leaf(entries).accepts(entry, region),
        Quad::Leaf(entries).insert(entry, region) == Quad::Split(
            seq![
                Quad::Leaf(part(entries.push(entry), region, 0)),
                Quad::Leaf(part(entries.push(entry), region, 1)),
                Quad::Leaf(part(entries.push(entry), region, 2)),
                Quad::Leaf(part(entries.push(entry), region, 3)),
            ],
        ),
{
    let all = entries.push(entry);
    assert(part(all, region, 0).len() <= LEAF_CAPACITY);
    assert(part(all, region, 1).len() <= LEAF_CAPACITY);
    assert(part(all, region, 2).len() <= LEAF_CAPACITY);
    assert(part(all, region, 3).len() <= LEAF_CAPACITY);
    if region.spec_divisible() {
        assert(separable(part(all, region, 0), region.quadrant(0)));
        assert(separable(part(all, region, 1), region.quadrant(1)));
        assert(separable(part(all, region, 2), region.quadrant(2)));
        assert(separable(part(all, region, 3), region.quadrant(3)));
        assert(subdivide(part(all, region, 0), region.quadrant(0)) == Quad::Leaf(
            part(all, region, 0),
        ));
        assert(subdivide(part(all, region, 1), region.quadrant(1)) == Quad::Leaf(
            part(all, region, 1),
        ));
        assert(subdivide(part(all, region, 2), region.quadrant(2)) == Quad::Leaf(
            part(all, region, 2),
        ));
        assert(subdivide(part(all, region, 3), region.quadrant(3)) == Quad::Leaf(
            part(all, region, 3),
        ));
    }
    assert(subdivide(all, region)->Split_0 =~= seq![
        Quad::Leaf(part(all, region, 0)),
        Quad::Leaf(part(all, region, 1)),
        Quad::Leaf(part(all, region, 2)),
        Quad::Leaf(part(all, region, 3)),
    ]);
}

/// A well-formed tree without entries is a single empty leaf, and the only
/// region it reports is its own.
pub proof fn law_empty_tree_is_one_leaf(tree: Quad, region: Bounds)
    requires
        tree.wf(),
        tree.count() == 0,
    ensures
        tree == Quad::empty(),
        tree.regions(region) == seq![region],
{
    tree.lemma_empty();
}

/// The part of a sequence in two pieces is made of the parts of the pieces.
proof fn lemma_part_of_pieces(head: Seq<NodeInner>, tail: Seq<NodeInner>, region: Bounds)
    ensures
        forall|q: int|
            #![trigger part(head + tail, region, q)]
            part(head + tail, region, q) == part(head, region, q) + part(tail, region, q),
{
    assert forall|q: int| #![trigger part(head + tail, region, q)]
        part(head + tail, region, q) == part(head, region, q) + part(tail, region, q) by {
        Seq::filter_distributes_over_add(head, tail, in_quadrant(region, q));
    }
}

/// Where entries can be separated, so can the first of them.
pub proof fn law_fewer_entries_stay_separable(
    head: Seq<NodeInner>,
    tail: Seq<NodeInner>,
    region: Bounds,
)
    requires
        separable(head + tail, region),
    ensures
        separable(head, region),
    decreases region.span(),
{
    if head.len() > LEAF_CAPACITY && !region.spec_divisible() {
        lemma_part_of_pieces(head, tail, region);
        assert(part(head + tail, region, 0).len() >= part(head, region, 0).len());
        assert(part(head + tail, region, 1).len() >= part(head, region, 1).len());
        assert(part(head + tail, region, 2).len() >= part(head, region, 2).len());
        assert(part(head + tail, region, 3).len() >= part(head, region, 3).len());
    } else if head.len() > LEAF_CAPACITY {
        lemma_part_of_pieces(head, tail, region);
        region.lemma_quadrant_span(0);
        region.lemma_quadrant_span(1);
        region.lemma_quadrant_span(2);
        region.lemma_quadrant_span(3);
        law_fewer_entries_stay_separable(
            part(head, region, 0),
            part(tail, region, 0),
            region.quadrant(0),
        );
        law_fewer_entries_stay_separable(
            part(head, region, 1),
            part(tail, region, 1),
            region.quadrant(1),
        );
        law_fewer_entries_stay_separable(
            part(head, region, 2),
            part(tail, region, 2),
            region.quadrant(2),
        );
        law_fewer_entries_stay_separable(
            part(head, region, 3),
            part(tail, region, 3),
            region.quadrant(3),
        );
    }
}

/// A batch goes into the tree that holds `entries` exactly where it can be
/// separated together with them, and the tree then holds both.
proof fn lemma_batch_into_subdivided(
    entries: Seq<NodeInner>,
    batch: Seq<NodeInner>,
    region: Bounds,
)
    requires
        separable(entries, region),
    ensures
        subdivide(entries, region).accepts_all(batch, region) <==> separable(
            entries + batch,
            region,
        ),
        separable(entries + batch, region) ==> subdivide(entries, region).insert_all(
            batch,
            region,
        ) == subdivide(entries + batch, region),
    decreases region.span(),
{
    if entries.len() > LEAF_CAPACITY && !region.spec_divisible() {
        lemma_part_of_pieces(entries, batch, region);
        let whole = entries + batch;
        lemma_part_is_of_its_quadrant(whole, region, 0);
        lemma_part_is_of_its_quadrant(whole, region, 1);
        lemma_part_is_of_its_quadrant(whole, region, 2);
        lemma_part_is_of_its_quadrant(whole, region, 3);
        lemma_stuck(part(whole, region, 0), region, 0);
        lemma_stuck(part(whole, region, 1), region, 1);
        lemma_stuck(part(whole, region, 2), region, 2);
        lemma_stuck(part(whole, region, 3), region, 3);
        let held = subdivide(entries, region)->Split_0;
        assert(held[0].accepts_all(part(batch, region, 0), region.quadrant(0)) == separable(
            part(whole, region, 0),
            region.quadrant(0),
        ));
        assert(held[1].accepts_all(part(batch, region, 1), region.quadrant(1)) == separable(
            part(whole, region, 1),
            region.quadrant(1),
        ));
        assert(held[2].accepts_all(part(batch, region, 2), region.quadrant(2)) == separable(
            part(whole, region, 2),
            region.quadrant(2),
        ));
        assert(held[3].accepts_all(part(batch, region, 3), region.quadrant(3)) == separable(
            part(whole, region, 3),
            region.quadrant(3),
        ));
        assert(whole.len() > LEAF_CAPACITY);
        if separable(whole, region) {
            assert(held[0].insert_all(part(batch, region, 0), region.quadrant(0)) == Quad::Leaf(
                part(whole, region, 0),
            ));
            assert(held[1].insert_all(part(batch, region, 1), region.quadrant(1)) == Quad::Leaf(
                part(whole, region, 1),
            ));
            assert(held[2].insert_all(part(batch, region, 2), region.quadrant(2)) == Quad::Leaf(
                part(whole, region, 2),
            ));
            assert(held[3].insert_all(part(batch, region, 3), region.quadrant(3)) == Quad::Leaf(
                part(whole, region, 3),
            ));
            assert(subdivide(entries, region).insert_all(batch, region)->Split_0 =~= subdivide(
                whole,
                region,
            )->Split_0);
        }
    } else if entries.len() > LEAF_CAPACITY {
        lemma_part_of_pieces(entries, batch, region);
        region.lemma_quadrant_span(0);
        region.lemma_quadrant_span(1);
        region.lemma_quadrant_span(2);
        region.lemma_quadrant_span(3);
        lemma_batch_into_subdivided(
            part(entries, region, 0),
            part(batch, region, 0),
            region.quadrant(0),
        );
        lemma_batch_into_subdivided(
            part(entries, region, 1),
            part(batch, region, 1),
            region.quadrant(1),
        );
        lemma_batch_into_subdivided(
            part(entries, region, 2),
            part(batch, region, 2),
            region.quadrant(2),
        );
        lemma_batch_into_subdivided(
            part(entries, region, 3),
            part(batch, region, 3),
            region.quadrant(3),
        );
        if separable(entries + batch, region) {
            assert(subdivide(entries, region).insert_all(batch, region)->Split_0 =~= subdivide(
                entries + batch,
                region,
            )->Split_0);
        }
    }
}

/// Inserting a batch is inserting its first entry and then the rest.
proof fn lemma_batch_head(tree: Quad, entry: NodeInner, rest: Seq<NodeInner>, region: Bounds)
    requires
        tree.wf(),
    ensures
        tree.accepts_all(seq![entry] + rest, region) <==> tree.accepts(entry, region)
            && tree.insert(entry, region).accepts_all(rest, region),
        tree.accepts_all(seq![entry] + rest, region) ==> tree.insert_all(
            seq![entry] + rest,
            region,
        ) == tree.insert(entry, region).insert_all(rest, region),
    decreases tree,
{
    let batch = seq![entry] + rest;
    match tree {
        Quad::Leaf(entries) => {
            assert(entries + batch =~= entries.push(entry) + rest);
            if separable(entries.push(entry) + rest, region) {
                law_fewer_entries_stay_separable(entries.push(entry), rest, region);
            }
            if separable(entries.push(entry), region) {
                lemma_batch_into_subdivided(entries.push(entry), rest, region);
            }
        },
        Quad::Split(children) => {
            let q = region.quadrant_of(entry.coord);
            lemma_part_of_pieces(seq![entry], rest, region);
            assert(seq![entry] =~= Seq::<NodeInner>::empty().push(entry));
            assert forall|i: int| 0 <= i < 4 implies #[trigger] part(batch, region, i) == if i
                == q {
                seq![entry] + part(rest, region, i)
            } else {
                part(rest, region, i)
            } by {
                Seq::<NodeInner>::empty().lemma_filter_push(entry, in_quadrant(region, i));
                Seq::<NodeInner>::empty().lemma_filter_len(in_quadrant(region, i));
                assert(part(seq![entry], region, i) =~= if i == q {
                    seq![entry]
                } else {
                    Seq::<NodeInner>::empty()
                });
                assert(Seq::<NodeInner>::empty() + part(rest, region, i) =~= part(
                    rest,
                    region,
                    i,
                ));
            }
            assert(part(batch, region, 0) == part(batch, region, 0));
            assert(part(batch, region, 1) == part(batch, region, 1));
            assert(part(batch, region, 2) == part(batch, region, 2));
            assert(part(batch, region, 3) == part(batch, region, 3));
            lemma_batch_head(children[q], entry, part(rest, region, q), region.quadrant(q));
            if tree.accepts_all(batch, region) {
                assert(tree.insert_all(batch, region)->Split_0 =~= tree.insert(
                    entry,
                    region,
                ).insert_all(rest, region)->Split_0);
            }
        },
    }
}

/// A batch is accepted exactly where its entries are accepted one after the
/// other, and inserting the batch is inserting them one after the other.
pub proof fn law_batch_is_one_by_one(tree: Quad, batch: Seq<NodeInner>, region: Bounds)
    requires
        tree.wf(),
    ensures
        tree.accepts_all(batch, region) <==> tree.insert_each(batch, region) is Some,
        tree.accepts_all(batch, region) ==> tree.insert_each(batch, region) == Some(
            tree.insert_all(batch, region),
        ),
    decreases batch.len(),
{
    if batch.len() == 0 {
        tree.lemma_insert_nothing(batch, region);
    } else {
        let entry = batch[0];
        let rest = batch.drop_first();
        assert(batch =~= seq![entry] + rest);
        lemma_batch_head(tree, entry, rest, region);
        if tree.accepts(entry, region) {
            tree.lemma_insert(entry, region);
            law_batch_is_one_by_one(tree.insert(entry, region), rest, region);
        }
    }
}

/// Every accepted insertion adds four points. After any run of accepted
/// insertions the tree therefore holds four points for each of them, and
/// where the entities are new to the index and to each other, four points
/// for each stored entity more.
pub proof fn law_four_points_per_insertion<T: AABB>(index: TreeView<T>, values: Seq<T>)
    requires
        index.wf(),
        index.insert_values(values) is Some,
    ensures
        index.insert_values(values).unwrap().wf(),
        index.insert_values(values).unwrap().bounds == index.bounds,
        index.insert_values(values).unwrap().point_count() == index.point_count() + 4
            * values.len(),
        index.new_to(values) ==> index.insert_values(values).unwrap().entity_count()
            == index.entity_count() + values.len(),
    decreases values.len(),
{
    if values.len() > 0 {
        let value = values[0];
        let rest = values.drop_first();
        let next = index.insert(value);
        law_insertion_keeps_wf(index, value);
        index.root.lemma_insert_all(
            corner_entries(value.spec_id(), value.spec_bounds()),
            index.bounds,
        );
        if index.new_to(values) {
            assert(!index.entries.contains_key(value.spec_id()));
            assert forall|i: int| 0 <= i < rest.len() implies !next.entries.contains_key(
                (#[trigger] rest[i]).spec_id(),
            ) by {
                assert(rest[i] == values[i + 1]);
            }
            assert forall|i: int, j: int| 0 <= i < j < rest.len() implies (#[trigger] rest[i]).spec_id()
                != (#[trigger] rest[j]).spec_id() by {
                assert(rest[i] == values[i + 1]);
                assert(rest[j] == values[j + 1]);
            }
            assert(next.new_to(rest));
        }
        law_four_points_per_insertion(next, rest);
    }
}

/// Starting from nothing, entities with different identities leave exactly
/// four points each in the tree.
pub proof fn law_four_points_per_entity<T: AABB>(bounds: Bounds, values: Seq<T>)
    requires
        TreeView::<T>::empty(bounds).insert_values(values) is Some,
        TreeView::<T>::empty(bounds).new_to(values),
    ensures
        TreeView::<T>::empty(bounds).insert_values(values).unwrap().point_count() == 4
            * TreeView::<T>::empty(bounds).insert_values(values).unwrap().entity_count(),
{
    law_four_points_per_insertion(TreeView::<T>::empty(bounds), values);
}

/// An entity whose box lies inside the region goes into the empty index, and
/// removing it again leaves the empty index: no entity, no point, and a
/// single empty leaf.
pub proof fn law_insert_then_remove_leaves_nothing<T: AABB>(bounds: Bounds, value: T)
    requires
        bounds.spec_contains(value.spec_bounds()),
    ensures
        TreeView::<T>::empty(bounds).rejects(value) is None,
        TreeView::<T>::empty(bounds).insert(value).remove(value.spec_id()) == TreeView::<
            T,
        >::empty(bounds),
{
    let id = value.spec_id();
    let corners = corner_entries(id, value.spec_bounds());
    let nothing = Seq::<NodeInner>::empty();
    let before = TreeView::<T>::empty(bounds);
    let stored = before.insert(value);
    assert(nothing + corners =~= corners);
    assert(stored.root == Quad::Leaf(corners));
    corners.lemma_all_neg_filter_empty(other_than(id));
    nothing.lemma_filter_len(other_than(id));
    assert(nothing.filter(other_than(id)) =~= nothing);
    assert(remove_corners(stored.root, id, value.spec_bounds(), bounds) == Quad::empty());
    assert(stored.entries.remove(id) =~= before.entries);
}

/// Entries that go in one after the other are all stored afterwards, each
/// where it is routed to, and counted for their entity.
proof fn lemma_insert_each(
    tree: Quad,
    batch: Seq<NodeInner>,
    region: Bounds,
    owner: u64,
    id: u64,
    entry: NodeInner,
)
    requires
        tree.wf(),
        tree.routed(region),
        tree.insert_each(batch, region) is Some,
        forall|i: int| 0 <= i < batch.len() ==> (#[trigger] batch[i]).id == owner,
    ensures
        tree.insert_each(batch, region).unwrap().wf(),
        tree.insert_each(batch, region).unwrap().routed(region),
        tree.insert_each(batch, region).unwrap().has(entry) <==> tree.has(entry) || batch.contains(
            entry,
        ),
        tree.insert_each(batch, region).unwrap().count_of(id) == tree.count_of(id) + if id
            == owner {
            batch.len()
        } else {
            0nat
        },
    decreases batch.len(),
{
    if batch.len() > 0 {
        let first = batch[0];
        let rest = batch.drop_first();
        let next = tree.insert(first, region);
        tree.lemma_insert(first, region);
        tree.lemma_insert_has(first, region, entry);
        tree.lemma_insert_routed(first, region, id);
        assert forall|i: int| 0 <= i < rest.len() implies (#[trigger] rest[i]).id == owner by {
            assert(rest[i] == batch[i + 1]);
        }
        lemma_insert_each(next, rest, region, owner, id, entry);
        assert(batch =~= seq![first] + rest);
        vstd::seq_lib::lemma_seq_concat_contains_all_elements(seq![first], rest, entry);
        assert(seq![first].contains(entry) <==> entry == first) by {
            if entry == first {
                assert(seq![first][0] == entry);
            }
        }
    }
}

/// The empty index is consistent.
pub proof fn law_empty_index_is_consistent<T: AABB>(bounds: Bounds)
    ensures
        TreeView::<T>::empty(bounds).consistent(),
{
    let empty = TreeView::<T>::empty(bounds);
    assert forall|id: u64| true implies !empty.entries.contains_key(id) by {}
}

/// An accepted insertion of an entity that is new to a consistent index
/// leaves the index consistent.
pub proof fn law_insertion_keeps_consistent<T: AABB>(index: TreeView<T>, value: T)
    requires
        index.consistent(),
        index.rejects(value) is None,
        !index.entries.contains_key(value.spec_id()),
    ensures
        index.insert(value).consistent(),
{
    let owner = value.spec_id();
    let batch = corner_entries(owner, value.spec_bounds());
    let after = index.insert(value);
    law_batch_is_one_by_one(index.root, batch, index.bounds);
    index.root.lemma_insert_all(batch, index.bounds);
    assert forall|entry: NodeInner| #[trigger] index.root.has(entry) implies entry.id != owner by {}
    index.root.lemma_count_of_absent(owner);
    lemma_insert_each(index.root, batch, index.bounds, owner, owner, batch[0]);
    assert forall|entry: NodeInner| #[trigger]
        after.root.has(entry) implies after.entries.contains_key(entry.id) && corner_entries(
        entry.id,
        after.entries[entry.id].spec_bounds(),
    ).contains(entry) by {
        lemma_insert_each(index.root, batch, index.bounds, owner, owner, entry);
        if index.root.has(entry) {
            assert(entry.id != owner);
        } else {
            let i = choose|i: int| 0 <= i < batch.len() && batch[i] == entry;
            assert(batch[i].id == owner);
        }
    }
    assert forall|id: u64| #[trigger] after.entries.contains_key(id) implies after.root.count_of(id)
        == 4 by {
        lemma_insert_each(index.root, batch, index.bounds, owner, id, batch[0]);
        if id != owner {
            assert(index.entries.contains_key(id));
        }
    }
}

/// A removal leaves a consistent index consistent.
pub proof fn law_removal_keeps_consistent<T: AABB>(index: TreeView<T>, id: u64)
    requires
        index.consistent(),
    ensures
        index.remove(id).consistent(),
{
    if index.entries.contains_key(id) {
        let region = index.bounds;
        let corners = index.entries[id].spec_bounds().spec_corners();
        let after = index.remove(id);
        let t0 = index.root;
        let t1 = t0.remove(id, corners[0], region);
        let t2 = t1.remove(id, corners[1], region);
        let t3 = t2.remove(id, corners[2], region);
        let t4 = t3.remove(id, corners[3], region);
        assert(after.root == t4);
        t0.lemma_remove(id, corners[0], region);
        t0.lemma_remove_routed(id, corners[0], region);
        t1.lemma_remove(id, corners[1], region);
        t1.lemma_remove_routed(id, corners[1], region);
        t2.lemma_remove(id, corners[2], region);
        t2.lemma_remove_routed(id, corners[2], region);
        t3.lemma_remove(id, corners[3], region);
        t3.lemma_remove_routed(id, corners[3], region);
        assert forall|entry: NodeInner| #[trigger] t4.has(entry) implies t0.has(entry) && entry.id
            != id by {
            t0.lemma_remove_has(id, corners[0], region, entry);
            t1.lemma_remove_has(id, corners[1], region, entry);
            t2.lemma_remove_has(id, corners[2], region, entry);
            t3.lemma_remove_has(id, corners[3], region, entry);
            if entry.id == id {
                let all = corner_entries(id, index.entries[id].spec_bounds());
                assert(all.contains(entry));
                let i = choose|i: int| 0 <= i < all.len() && all[i] == entry;
                assert(entry == NodeInner { id, coord: corners[i] });
            }
        }
        t4.lemma_count_of_absent(id);
        t0.lemma_remove_count(id, corners[0], region, if id == 0 { 1 } else { 0 });
        t1.lemma_remove_count(id, corners[1], region, if id == 0 { 1 } else { 0 });
        t2.lemma_remove_count(id, corners[2], region, if id == 0 { 1 } else { 0 });
        t3.lemma_remove_count(id, corners[3], region, if id == 0 { 1 } else { 0 });
        assert forall|other: u64| #[trigger] after.entries.contains_key(other) implies t4.count_of(
            other,
        ) == 4 by {
            assert(index.entries.contains_key(other));
            t0.lemma_remove_count(id, corners[0], region, other);
            t1.lemma_remove_count(id, corners[1], region, other);
            t2.lemma_remove_count(id, corners[2], region, other);
            t3.lemma_remove_count(id, corners[3], region, other);
        }
    }
}

/// A consistent index holds four points for each entity, and where it holds
/// no entity, its tree is a single empty leaf.
pub proof fn law_consistent_index_counts<T: AABB>(index: TreeView<T>)
    requires
        index.consistent(),
    ensures
        index.point_count() == 4 * index.entity_count(),
        index.entity_count() == 0 ==> index.root == Quad::empty(),
{
    if index.entity_count() == 0 {
        index.root.lemma_empty();
    }
}

/// One entry more than a leaf holds can always be separated where all of
/// them lie inside the well-formed region and two of them lie on different
/// points of the grid.
pub proof fn law_entries_inside_are_separable(
    entries: Seq<NodeInner>,
    region: Bounds,
    i: int,
    j: int,
)
    requires
        entries.len() == LEAF_CAPACITY + 1,
        region.wf(),
        forall|k: int| 0 <= k < entries.len() ==> region.has_point(#[trigger] entries[k].coord),
        0 <= i < entries.len(),
        0 <= j < entries.len(),
        entries[i].coord != entries[j].coord,
    ensures
        separable(entries, region),
    decreases region.span(),
{
    let q = region.quadrant_of(entries[i].coord);
    crate::quad::lemma_part_lengths(entries, region);
    assert(region.has_point(entries[i].coord) && region.has_point(entries[j].coord));
    assert(part(entries, region, q).len() > 0) by {
        crate::routing::lemma_filter_has(entries, in_quadrant(region, q), entries[i]);
        assert(entries.contains(entries[i]));
    }
    entries.lemma_filter_len(in_quadrant(region, q));
    if part(entries, region, q).len() > LEAF_CAPACITY {
        crate::routing::lemma_filter_same_len(entries, in_quadrant(region, q));
        assert(part(entries, region, q) == entries);
        assert forall|k: int| 0 <= k < entries.len() implies region.quadrant_of(
            #[trigger] entries[k].coord,
        ) == q && region.quadrant(q).has_point(entries[k].coord) by {
            entries.lemma_filter_pred(in_quadrant(region, q), k);
            region.lemma_quadrant_keeps_point(entries[k].coord);
        }
        assert(region.quadrant_of(entries[j].coord) == q);
        if region.spec_divisible() {
            region.lemma_quadrant_keeps_point(entries[i].coord);
            region.lemma_quadrant_span(q);
            law_entries_inside_are_separable(entries, region.quadrant(q), i, j);
            assert(separable(part(entries, region, q), region.quadrant(q)));
        } else {
            region.law_indivisible_rectangle_parts_its_points(entries[i].coord, entries[j].coord);
        }
    }
    if region.spec_divisible() {
        assert(separable(part(entries, region, 0), region.quadrant(0)));
        assert(separable(part(entries, region, 1), region.quadrant(1)));
        assert(separable(part(entries, region, 2), region.quadrant(2)));
        assert(separable(part(entries, region, 3), region.quadrant(3)));
    }
}

/// A full leaf over a well-formed region whose entries lie inside the
/// region refuses an entry that lies inside it if and only if the entry
/// lies on the point where all entries of the leaf lie already.
pub proof fn law_full_leaf_refuses_only_coincident_entries(
    entries: Seq<NodeInner>,
    entry: NodeInner,
    region: Bounds,
)
    requires
        entries.len() == LEAF_CAPACITY,
        region.wf(),
        region.has_point(entry.coord),
        forall|k: int| 0 <= k < entries.len() ==> region.has_point(#[trigger] entries[k].coord),
    ensures
        !Quad::Leaf(entries).accepts(entry, region) <==> forall|k: int|
            0 <= k < entries.len() ==> (#[trigger] entries[k]).coord == entry.coord,
{
    let all = entries.push(entry);
    if forall|k: int| 0 <= k < entries.len() ==> (#[trigger] entries[k]).coord == entry.coord {
        law_full_leaf_refuses_coincident_entry(entries, entry, region);
    } else {
        let k = choose|k: int| 0 <= k < entries.len() && (#[trigger] entries[k]).coord != entry.coord;
        assert(all[k] == entries[k]);
        assert(all[entries.len() as int] == entry);
        law_entries_inside_are_separable(all, region, k, entries.len() as int);
    }
}

/// The corner entries of a box inside a region lie inside the region.
proof fn lemma_corners_inside(id: u64, inner: Bounds, region: Bounds)
    requires
        region.spec_contains(inner),
    ensures
        region.wf(),
        all_inside(corner_entries(id, inner), region),
{
}

/// An index refuses an entity whose box lies inside its region if and only
/// if the corners of the box would leave more entries on one point of the
/// grid than a leaf holds.
pub proof fn law_index_refuses_only_crowded_points<T: AABB>(index: TreeView<T>, value: T)
    requires
        index.wf(),
        index.bounds.spec_contains(value.spec_bounds()),
    ensures
        index.rejects(value) == Some(InsertError::CoincidentPoints) <==> !fits(
            index.root,
            corner_entries(value.spec_id(), value.spec_bounds()),
        ),
        index.rejects(value) is None <==> fits(
            index.root,
            corner_entries(value.spec_id(), value.spec_bounds()),
        ),
{
    let batch = corner_entries(value.spec_id(), value.spec_bounds());
    lemma_corners_inside(value.spec_id(), value.spec_bounds(), index.bounds);
    law_accepted_unless_crowded(index.root, batch, index.bounds);
}

/// An accepted insertion leaves the index well-formed.
pub proof fn law_insertion_keeps_wf<T: AABB>(index: TreeView<T>, value: T)
    requires
        index.wf(),
        index.rejects(value) is None,
    ensures
        index.insert(value).wf(),
{
    let owner = value.spec_id();
    let batch = corner_entries(owner, value.spec_bounds());
    let after = index.insert(value);
    lemma_corners_inside(owner, value.spec_bounds(), index.bounds);
    law_batch_is_one_by_one(index.root, batch, index.bounds);
    lemma_insert_each(index.root, batch, index.bounds, owner, owner, batch[0]);
    assert forall|entry: NodeInner| #[trigger] after.root.has(entry) implies index.bounds.has_point(
        entry.coord,
    ) by {
        lemma_insert_each(index.root, batch, index.bounds, owner, owner, entry);
        if !index.root.has(entry) {
            let i = choose|i: int| 0 <= i < batch.len() && batch[i] == entry;
            assert(index.bounds.has_point(batch[i].coord));
        }
    }
}

/// A removal leaves the index well-formed.
pub proof fn law_removal_keeps_wf<T: AABB>(index: TreeView<T>, id: u64)
    requires
        index.wf(),
    ensures
        index.remove(id).wf(),
{
    if index.entries.contains_key(id) {
        let region = index.bounds;
        let corners = index.entries[id].spec_bounds().spec_corners();
        let t0 = index.root;
        let t1 = t0.remove(id, corners[0], region);
        let t2 = t1.remove(id, corners[1], region);
        let t3 = t2.remove(id, corners[2], region);
        let t4 = t3.remove(id, corners[3], region);
        assert(index.remove(id).root == t4);
        t0.lemma_remove(id, corners[0], region);
        t0.lemma_remove_routed(id, corners[0], region);
        t1.lemma_remove(id, corners[1], region);
        t1.lemma_remove_routed(id, corners[1], region);
        t2.lemma_remove(id, corners[2], region);
        t2.lemma_remove_routed(id, corners[2], region);
        t3.lemma_remove(id, corners[3], region);
        t3.lemma_remove_routed(id, corners[3], region);
        assert forall|entry: NodeInner| #[trigger] t4.has(entry) implies region.has_point(
            entry.coord,
        ) by {
            t0.lemma_remove_has(id, corners[0], region, entry);
            t1.lemma_remove_has(id, corners[1], region, entry);
            t2.lemma_remove_has(id, corners[2], region, entry);
            t3.lemma_remove_has(id, corners[3], region, entry);
        }
    }
}

/// A tree that has its entries where they are routed to, inside its
/// well-formed region, refuses an entry inside the region if and only if
/// the entry would be one more on its point than a leaf holds. The tree
/// keeps its entries where they are routed to, and inside the region.
pub proof fn law_entry_accepted_unless_crowded(tree: Quad, entry: NodeInner, region: Bounds)
    requires
        tree.wf(),
        tree.routed(region),
        tree.within(region),
        region.wf(),
        region.has_point(entry.coord),
    ensures
        tree.accepts(entry, region) <==> fits(tree, seq![entry]),
        tree.insert(entry, region).routed(region),
        tree.insert(entry, region).within(region),
{
    let batch = seq![entry];
    assert(batch.drop_first().len() == 0);
    law_batch_is_one_by_one(tree, batch, region);
    assert(tree.insert_each(batch, region) is Some <==> tree.accepts(entry, region)) by {
        if tree.accepts(entry, region) {
            assert(tree.insert(entry, region).insert_each(batch.drop_first(), region) is Some);
        }
    }
    law_accepted_unless_crowded(tree, batch, region);
    tree.lemma_insert_routed(entry, region, 0);
    assert forall|other: NodeInner| #[trigger]
        tree.insert(entry, region).has(other) implies region.has_point(other.coord) by {
        tree.lemma_insert_has(entry, region, other);
    }
}

} // verus!
