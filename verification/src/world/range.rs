use super::{ChunkCoord, CoordDiff};
use vstd::prelude::*;

verus! {

/// The chunks that a hitbox reaches: those from `min` to `max`, both
/// included, on either axis.
#[derive(Copy, Clone, Debug, PartialEq, Eq, Structural)]
pub struct ChunkRange {
    pub min: ChunkCoord,
    pub max: ChunkCoord,
}

/// The chunks of column `x` from row `y` to row `last`.
pub open spec fn column(x: int, y: int, last: int) -> Seq<ChunkCoord>
    decreases last - y + 1,
{
    if y > last {
        Seq::empty()
    } else {
        seq![ChunkCoord { x: x as i32, y: y as i32 }] + column(x, y + 1, last)
    }
}

/// The chunks of the columns `x` to `last`, each from row `top` to row
/// `bottom`.
pub open spec fn columns(x: int, last: int, top: int, bottom: int) -> Seq<ChunkCoord>
    decreases last - x + 1,
{
    if x > last {
        Seq::empty()
    } else {
        column(x, top, bottom) + columns(x + 1, last, top, bottom)
    }
}

impl ChunkRange {
    /// Whether the range counts the chunk at `x` and `y` as covered when two
    /// ranges are compared: the column lies between its ends, and the row is
    /// at most its first row and at least its last.
    pub open spec fn settled_on(self, x: int, y: int) -> bool {
        self.min.x <= x && self.max.x >= x && self.min.y >= y && self.max.y <= y
    }

    /// What became of the chunk at `x` and `y` between `old` and `self`.
    pub open spec fn diff_at(self, old: ChunkRange, x: int, y: int) -> Seq<CoordDiff> {
        if self.settled_on(x, y) && !old.settled_on(x, y) {
            seq![CoordDiff::Added(ChunkCoord { x: x as i32, y: y as i32 })]
        } else if !self.settled_on(x, y) && old.settled_on(x, y) {
            seq![CoordDiff::Removed(ChunkCoord { x: x as i32, y: y as i32 })]
        } else {
            Seq::empty()
        }
    }

    /// The changes in column `x` from row `y` to row `last`.
    pub open spec fn diff_column(self, old: ChunkRange, x: int, y: int, last: int) -> Seq<
        CoordDiff,
    >
        decreases last - y + 1,
    {
        if y > last {
            Seq::empty()
        } else {
            self.diff_at(old, x, y) + self.diff_column(old, x, y + 1, last)
        }
    }

    /// The changes in the columns `x` to `last`, each from row `top` to row
    /// `bottom`.
    pub open spec fn diff_columns(
        self,
        old: ChunkRange,
        x: int,
        last: int,
        top: int,
        bottom: int,
    ) -> Seq<CoordDiff>
        decreases last - x + 1,
    {
        if x > last {
            Seq::empty()
        } else {
            self.diff_column(old, x, top, bottom) + self.diff_columns(
                old,
                x + 1,
                last,
                top,
                bottom,
            )
        }
    }

    /// The smallest range that reaches every chunk of both ranges.
    pub open spec fn hull(self, old: ChunkRange) -> ChunkRange {
        ChunkRange {
            min: ChunkCoord {
                x: if self.min.x <= old.min.x {
                    self.min.x
                } else {
                    old.min.x
                },
                y: if self.min.y <= old.min.y {
                    self.min.y
                } else {
                    old.min.y
                },
            },
            max: ChunkCoord {
                x: if self.max.x >= old.max.x {
                    self.max.x
                } else {
                    old.max.x
                },
                y: if self.max.y >= old.max.y {
                    self.max.y
                } else {
                    old.max.y
                },
            },
        }
    }

    /// The chunks of the range, column by column.
    pub fn chunks(&self) -> (all: Vec<ChunkCoord>)
        ensures
            all@ == columns(
                self.min.x as int,
                self.max.x as int,
                self.min.y as int,
                self.max.y as int,
            ),
    {
        let mut all: Vec<ChunkCoord> = Vec::new();
        let ghost whole = columns(
            self.min.x as int,
            self.max.x as int,
            self.min.y as int,
            self.max.y as int,
        );
        let mut x: i64 = self.min.x as i64;
        while x <= self.max.x as i64
            invariant
                self.min.x <= x <= i32::MAX + 1,
                all@ + columns(x as int, self.max.x as int, self.min.y as int, self.max.y as int)
                    == whole,
            decreases self.max.x - x + 1,
        {
            let ghost rest = columns(x + 1, self.max.x as int, self.min.y as int, self.max.y as int);
            let mut y: i64 = self.min.y as i64;
            while y <= self.max.y as i64
                invariant
                    self.min.x <= x <= self.max.x,
                    self.min.y <= y <= i32::MAX + 1,
                    all@ + column(x as int, y as int, self.max.y as int) + rest == whole,
                decreases self.max.y - y + 1,
            {
                let ghost before = all@;
                all.push(ChunkCoord { x: x as i32, y: y as i32 });
                assert(all@ + column(x as int, y + 1, self.max.y as int) =~= before + column(
                    x as int,
                    y as int,
                    self.max.y as int,
                ));
                y += 1;
            }
            assert(all@ + column(x as int, y as int, self.max.y as int) =~= all@);
            x += 1;
        }
        assert(all@ + columns(x as int, self.max.x as int, self.min.y as int, self.max.y as int)
            =~= all@);
        all
    }

    /// The chunks that `self` counts as covered and `old` does not, and
    /// those that `old` counts as covered and `self` does not, column by
    /// column over all the chunks that either range reaches.
    pub fn chunks_diff_from(&self, old: &ChunkRange) -> (result: Vec<CoordDiff>)
        ensures
            result@ == self.diff_columns(
                *old,
                self.hull(*old).min.x as int,
                self.hull(*old).max.x as int,
                self.hull(*old).min.y as int,
                self.hull(*old).max.y as int,
            ),
    {
        let abs_min = ChunkCoord {
            x: if self.min.x <= old.min.x {
                self.min.x
            } else {
                old.min.x
            },
            y: if self.min.y <= old.min.y {
                self.min.y
            } else {
                old.min.y
            },
        };
        let abs_max = ChunkCoord {
            x: if self.max.x >= old.max.x {
                self.max.x
            } else {
                old.max.x
            },
            y: if self.max.y >= old.max.y {
                self.max.y
            } else {
                old.max.y
            },
        };
        let ghost whole = self.diff_columns(
            *old,
            abs_min.x as int,
            abs_max.x as int,
            abs_min.y as int,
            abs_max.y as int,
        );

        let mut result: Vec<CoordDiff> = Vec::new();
        let mut x: i64 = abs_min.x as i64;
        while x <= abs_max.x as i64
            invariant
                abs_min.x <= x <= i32::MAX + 1,
                result@ + self.diff_columns(
                    *old,
                    x as int,
                    abs_max.x as int,
                    abs_min.y as int,
                    abs_max.y as int,
                ) == whole,
            decreases abs_max.x - x + 1,
        {
            let ghost rest = self.diff_columns(
                *old,
                x + 1,
                abs_max.x as int,
                abs_min.y as int,
                abs_max.y as int,
            );
            let mut y: i64 = abs_min.y as i64;
            while y <= abs_max.y as i64
                invariant
                    abs_min.x <= x <= abs_max.x,
                    abs_min.y <= y <= i32::MAX + 1,
                    result@ + self.diff_column(*old, x as int, y as int, abs_max.y as int) + rest
                        == whole,
                decreases abs_max.y - y + 1,
            {
                let ghost before = result@;
                let self_contains_chunk = self.min.x as i64 <= x && self.max.x as i64 >= x
                    && self.min.y as i64 >= y && self.max.y as i64 <= y;
                let old_contains_chunk = old.min.x as i64 <= x && old.max.x as i64 >= x
                    && old.min.y as i64 >= y && old.max.y as i64 <= y;

                if self_contains_chunk && !old_contains_chunk {
                    result.push(CoordDiff::Added(ChunkCoord { x: x as i32, y: y as i32 }));
                } else if !self_contains_chunk && old_contains_chunk {
                    result.push(CoordDiff::Removed(ChunkCoord { x: x as i32, y: y as i32 }));
                }
                assert(result@ + self.diff_column(*old, x as int, y + 1, abs_max.y as int)
                    =~= before + self.diff_column(*old, x as int, y as int, abs_max.y as int));
                y += 1;
            }
            assert(result@ + self.diff_column(*old, x as int, y as int, abs_max.y as int)
                =~= result@);
            x += 1;
        }
        assert(result@ + self.diff_columns(
            *old,
            x as int,
            abs_max.x as int,
            abs_min.y as int,
            abs_max.y as int,
        ) =~= result@);
        result
    }
}

/// A chunk at `c` is among the chunks of the columns exactly where the
/// columns and rows reach it.
pub proof fn lemma_column_has(x: int, y: int, last: int, c: ChunkCoord)
    requires
        i32::MIN <= x <= i32::MAX,
        i32::MIN <= y,
        last <= i32::MAX,
    ensures
        column(x, y, last).contains(c) <==> c.x == x && y <= c.y <= last,
    decreases last - y + 1,
{
    if y <= last {
        lemma_column_has(x, y + 1, last, c);
        let head = seq![ChunkCoord { x: x as i32, y: y as i32 }];
        vstd::seq_lib::lemma_seq_concat_contains_all_elements(head, column(x, y + 1, last), c);
        if c == head[0] {
            assert(head.contains(c));
        }
    }
}

/// A chunk at `c` is among the chunks of the columns exactly where the
/// columns and rows reach it.
pub proof fn lemma_columns_have(x: int, last: int, top: int, bottom: int, c: ChunkCoord)
    requires
        i32::MIN <= x,
        last <= i32::MAX,
        i32::MIN <= top,
        bottom <= i32::MAX,
    ensures
        columns(x, last, top, bottom).contains(c) <==> x <= c.x <= last && top <= c.y <= bottom,
    decreases last - x + 1,
{
    if x <= last {
        lemma_columns_have(x + 1, last, top, bottom, c);
        lemma_column_has(x, top, bottom, c);
        vstd::seq_lib::lemma_seq_concat_contains_all_elements(
            column(x, top, bottom),
            columns(x + 1, last, top, bottom),
            c,
        );
    }
}

impl ChunkRange {
    /// Whether the range reaches the chunk at `c`.
    pub open spec fn reaches(self, c: ChunkCoord) -> bool {
        self.min.x <= c.x <= self.max.x && self.min.y <= c.y <= self.max.y
    }

    /// What the change from `old` to `self` asks to be done at the chunk
    /// `c`, if anything.
    pub open spec fn change_at(self, old: ChunkRange, c: ChunkCoord) -> Seq<CoordDiff> {
        if self.hull(old).reaches(c) {
            self.diff_at(old, c.x as int, c.y as int)
        } else {
            Seq::empty()
        }
    }

    /// A change is listed for a column exactly where it is asked for there.
    pub proof fn lemma_diff_column_has(
        self,
        old: ChunkRange,
        x: int,
        y: int,
        last: int,
        diff: CoordDiff,
    )
        requires
            i32::MIN <= x <= i32::MAX,
            i32::MIN <= y,
            last <= i32::MAX,
        ensures
            self.diff_column(old, x, y, last).contains(diff) <==> exists|row: int|
                y <= row <= last && #[trigger] self.diff_at(old, x, row) == seq![diff],
        decreases last - y + 1,
    {
        if y <= last {
            self.lemma_diff_column_has(old, x, y + 1, last, diff);
            let head = self.diff_at(old, x, y);
            let tail = self.diff_column(old, x, y + 1, last);
            vstd::seq_lib::lemma_seq_concat_contains_all_elements(head, tail, diff);
            if head.contains(diff) {
                assert(head =~= seq![diff]);
            }
            if head == seq![diff] {
                assert(head[0] == diff);
            }
            if exists|row: int|
                y <= row <= last && #[trigger] self.diff_at(old, x, row) == seq![diff] {
                let row = choose|row: int|
                    y <= row <= last && #[trigger] self.diff_at(old, x, row) == seq![diff];
                if row != y {
                    assert(y + 1 <= row <= last && self.diff_at(old, x, row) == seq![diff]);
                }
            }
        }
    }

    /// A change is listed exactly where it is asked for.
    pub proof fn lemma_diff_columns_have(
        self,
        old: ChunkRange,
        x: int,
        last: int,
        top: int,
        bottom: int,
        diff: CoordDiff,
    )
        requires
            i32::MIN <= x,
            last <= i32::MAX,
            i32::MIN <= top,
            bottom <= i32::MAX,
        ensures
            self.diff_columns(old, x, last, top, bottom).contains(diff) <==> exists|
                column: int,
                row: int,
            |
                x <= column <= last && top <= row <= bottom && #[trigger] self.diff_at(
                    old,
                    column,
                    row,
                ) == seq![diff],
        decreases last - x + 1,
    {
        if x <= last {
            self.lemma_diff_columns_have(old, x + 1, last, top, bottom, diff);
            self.lemma_diff_column_has(old, x, top, bottom, diff);
            vstd::seq_lib::lemma_seq_concat_contains_all_elements(
                self.diff_column(old, x, top, bottom),
                self.diff_columns(old, x + 1, last, top, bottom),
                diff,
            );
            if exists|column: int, row: int|
                x <= column <= last && top <= row <= bottom && #[trigger] self.diff_at(
                    old,
                    column,
                    row,
                ) == seq![diff] {
                let (column, row) = choose|column: int, row: int|
                    x <= column <= last && top <= row <= bottom && #[trigger] self.diff_at(
                        old,
                        column,
                        row,
                    ) == seq![diff];
                if column != x {
                    assert(x + 1 <= column <= last && top <= row <= bottom && self.diff_at(
                        old,
                        column,
                        row,
                    ) == seq![diff]);
                }
            }
        }
    }

    /// The changes from `old` to `self` list a change at a chunk exactly
    /// where it is asked for there.
    pub proof fn lemma_changes(self, old: ChunkRange, c: ChunkCoord)
        ensures
            self.diff_columns(
                old,
                self.hull(old).min.x as int,
                self.hull(old).max.x as int,
                self.hull(old).min.y as int,
                self.hull(old).max.y as int,
            ).contains(CoordDiff::Added(c)) <==> self.change_at(old, c) == seq![
                CoordDiff::Added(c),
            ],
            self.diff_columns(
                old,
                self.hull(old).min.x as int,
                self.hull(old).max.x as int,
                self.hull(old).min.y as int,
                self.hull(old).max.y as int,
            ).contains(CoordDiff::Removed(c)) <==> self.change_at(old, c) == seq![
                CoordDiff::Removed(c),
            ],
    {
        let hull = self.hull(old);
        let x0 = hull.min.x as int;
        let x1 = hull.max.x as int;
        let y0 = hull.min.y as int;
        let y1 = hull.max.y as int;
        self.lemma_diff_columns_have(old, x0, x1, y0, y1, CoordDiff::Added(c));
        self.lemma_diff_columns_have(old, x0, x1, y0, y1, CoordDiff::Removed(c));
        assert forall|column: int, row: int|
            x0 <= column <= x1 && y0 <= row <= y1 && #[trigger] self.diff_at(old, column, row)
                == seq![CoordDiff::Added(c)] implies column == c.x && row == c.y by {
            assert(self.diff_at(old, column, row)[0] == CoordDiff::Added(c));
        }
        assert forall|column: int, row: int|
            x0 <= column <= x1 && y0 <= row <= y1 && #[trigger] self.diff_at(old, column, row)
                == seq![CoordDiff::Removed(c)] implies column == c.x && row == c.y by {
            assert(self.diff_at(old, column, row)[0] == CoordDiff::Removed(c));
        }
        if self.change_at(old, c) == seq![CoordDiff::Added(c)] {
            assert(x0 <= c.x <= x1 && y0 <= c.y <= y1 && self.diff_at(old, c.x as int, c.y as int)
                == seq![CoordDiff::Added(c)]);
        }
        if self.change_at(old, c) == seq![CoordDiff::Removed(c)] {
            assert(x0 <= c.x <= x1 && y0 <= c.y <= y1 && self.diff_at(old, c.x as int, c.y as int)
                == seq![CoordDiff::Removed(c)]);
        }
    }
}

} // verus!
