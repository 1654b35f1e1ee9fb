//! The mathematical model of a grid: a square field of cells, stored row by
//! row, and what one generation makes of it.

use vstd::prelude::*;
use vstd::arithmetic::div_mod::lemma_fundamental_div_mod_converse;
use vstd::arithmetic::div_mod::lemma_fundamental_div_mod;
use vstd::seq_lib::lemma_seq_contains_after_push;
use crate::cell::Cell;
use crate::cell::lives_on;

verus! {

/// A square field of `size` by `size` cells in row-major order.
pub struct Board {
    pub size: int,
    pub cells: Seq<Cell>,
}

/// How many cells of `cells` are alive.
pub open spec fn live_count(cells: Seq<Cell>) -> nat
    decreases cells.len(),
{
    if cells.len() == 0 {
        0
    } else {
        live_count(cells.drop_last()) + if cells.last().alive { 1nat } else { 0nat }
    }
}

/// Counting one more cell adds one if it is alive and nothing if it is not.
pub proof fn lemma_live_count_push(cells: Seq<Cell>, cell: Cell)
    ensures
        live_count(cells.push(cell)) == live_count(cells) + if cell.alive { 1nat } else { 0nat },
{
    assert(cells.push(cell).drop_last() =~= cells);
}

/// How a cell is shown: `#` when alive, a blank when dead.
pub open spec fn glyph(cell: Cell) -> char {
    if cell.alive {
        '#'
    } else {
        ' '
    }
}

/// `(a, b)` lies next to `(x, y)`: at most one column and one row away, and
/// not on it.
pub open spec fn adjacent(x: int, y: int, a: int, b: int) -> bool {
    x - 1 <= a <= x + 1 && y - 1 <= b <= y + 1 && !(a == x && b == y)
}

/// How many of the columns `x - 1`, `x`, `x + 1` lie inside `0..size`
/// (the same for rows).
pub open spec fn span(size: int, x: int) -> int {
    1 + if x > 0 { 1int } else { 0int } + if x + 1 < size { 1int } else { 0int }
}

impl Board {
    /// The field is square: it holds `size * size` cells.
    pub open spec fn wf(self) -> bool {
        self.size >= 0 && self.cells.len() == self.size * self.size
    }

    /// `(x, y)` is a position of the field.
    pub open spec fn contains(self, x: int, y: int) -> bool {
        0 <= x < self.size && 0 <= y < self.size
    }

    /// Where the cell at column `x`, row `y` stands in `cells`.
    pub open spec fn index(self, x: int, y: int) -> int {
        y * self.size + x
    }

    /// The cell at column `x`, row `y`.
    pub open spec fn cell(self, x: int, y: int) -> Cell {
        self.cells[self.index(x, y)]
    }

    /// 1 if `(x, y)` is a position of the field and its cell is alive, else 0.
    /// Positions outside the field count as dead: the field does not wrap.
    pub open spec fn lit(self, x: int, y: int) -> int {
        if self.contains(x, y) && self.cell(x, y).alive {
            1
        } else {
            0
        }
    }

    /// The `k`-th position, row by row, of the three-by-three block centred
    /// on `(x, y)`; the centre itself is number 4.
    pub open spec fn around(x: int, y: int, k: int) -> (int, int) {
        (x + k % 3 - 1, y + k / 3 - 1)
    }

    /// The neighbours of `(x, y)` among the first `k` positions of the block
    /// around it: those that lie inside the field, the centre left out.
    pub open spec fn neighbor_positions_upto(self, x: int, y: int, k: int) -> Seq<(int, int)>
        decreases k,
    {
        if k <= 0 {
            Seq::empty()
        } else {
            let before = self.neighbor_positions_upto(x, y, k - 1);
            let p = Self::around(x, y, k - 1);
            if k - 1 != 4 && self.contains(p.0, p.1) {
                before.push(p)
            } else {
                before
            }
        }
    }

    /// The positions next to `(x, y)`, horizontally, vertically and
    /// diagonally, that lie inside the field, row by row.
    pub open spec fn neighbor_positions(self, x: int, y: int) -> Seq<(int, int)> {
        self.neighbor_positions_upto(x, y, 9)
    }

    /// The cells at `positions`, in the same order.
    pub open spec fn cells_at(self, positions: Seq<(int, int)>) -> Seq<Cell> {
        Seq::new(positions.len(), |i: int| self.cell(positions[i].0, positions[i].1))
    }

    /// The cells next to `(x, y)`.
    pub open spec fn neighbors(self, x: int, y: int) -> Seq<Cell> {
        self.cells_at(self.neighbor_positions(x, y))
    }

    /// How many cells next to `(x, y)` are alive.
    pub open spec fn live_neighbors(self, x: int, y: int) -> nat {
        live_count(self.neighbors(x, y))
    }

    /// The cell that stands at place `i` of `cells` one generation later.
    pub open spec fn successor_cell(self, i: int) -> Cell {
        Cell {
            alive: lives_on(
                self.cells[i].alive,
                self.live_neighbors(i % self.size, i / self.size) as int,
            ),
        }
    }

    /// The next generation: every cell decided by the rule from this
    /// generation's cells alone.
    pub open spec fn successor(self) -> Board {
        Board { size: self.size, cells: Seq::new(self.cells.len(), |i: int| self.successor_cell(i)) }
    }

    /// The generation `k` steps after this one.
    pub open spec fn after(self, k: nat) -> Board
        decreases k,
    {
        if k == 0 {
            self
        } else {
            self.after((k - 1) as nat).successor()
        }
    }

    /// `next` is a generation that follows this one: the same size, and each
    /// cell what the rule makes of the cell here and its live neighbours.
    pub open spec fn steps_to(self, next: Board) -> bool {
        &&& next.size == self.size
        &&& next.wf()
        &&& forall|x: int, y: int| #[trigger]
            self.contains(x, y) ==> (next.cell(x, y).alive <==> lives_on(
                self.cell(x, y).alive,
                self.live_neighbors(x, y) as int,
            ))
    }

    /// A position of the field has its place inside `cells`.
    pub proof fn lemma_index_in_range(self, x: int, y: int)
        requires
            self.wf(),
            self.contains(x, y),
        ensures
            0 <= self.index(x, y) < self.cells.len(),
            self.index(x, y) % self.size == x,
            self.index(x, y) / self.size == y,
    {
        assert(y * self.size + x < self.size * self.size) by (nonlinear_arith)
            requires
                0 <= x < self.size,
                0 <= y < self.size,
        ;
        assert(0 <= y * self.size + x) by (nonlinear_arith)
            requires
                0 <= x < self.size,
                0 <= y < self.size,
        ;
        lemma_fundamental_div_mod_converse(self.index(x, y), self.size, y, x);
    }

    /// Every place inside `cells` belongs to exactly one position: the column
    /// is the place modulo `size`, the row the place divided by `size`.
    pub proof fn lemma_place_has_position(self, i: int)
        requires
            self.wf(),
            0 <= i < self.cells.len(),
        ensures
            self.contains(i % self.size, i / self.size),
            self.index(i % self.size, i / self.size) == i,
    {
        let n = self.size;
        assert(n > 0) by (nonlinear_arith)
            requires
                n >= 0,
                0 <= i < n * n,
        ;
        lemma_fundamental_div_mod(i, n);
        assert(n * (i / n) == (i / n) * n) by (nonlinear_arith);
        assert(0 <= i / n < n) by (nonlinear_arith)
            requires
                n > 0,
                0 <= i < n * n,
                i == (i / n) * n + i % n,
                0 <= i % n < n,
        ;
    }

    /// Two positions of the field with the same place in `cells` are the same
    /// position. With `lemma_index_in_range` and `lemma_place_has_position`
    /// this makes `index` one-to-one from the positions onto the places.
    pub proof fn lemma_index_injective(self, x1: int, y1: int, x2: int, y2: int)
        requires
            self.wf(),
            self.contains(x1, y1),
            self.contains(x2, y2),
            self.index(x1, y1) == self.index(x2, y2),
        ensures
            x1 == x2,
            y1 == y2,
    {
        self.lemma_index_in_range(x1, y1);
        self.lemma_index_in_range(x2, y2);
    }

    /// A cell of the field has at most eight neighbours; their number is the
    /// number of columns in reach times the number of rows in reach, less
    /// one for the cell itself. So it is 8 away from the border, 5 on a
    /// border away from the corners, and 3 in a corner of a field of at
    /// least two cells a side.
    pub proof fn lemma_neighbor_count(self, x: int, y: int)
        requires
            self.contains(x, y),
        ensures
            self.neighbor_positions(x, y).len() == span(self.size, x) * span(self.size, y) - 1,
            self.neighbors(x, y).len() == self.neighbor_positions(x, y).len(),
            self.neighbor_positions(x, y).len() <= 8,
            0 < x < self.size - 1 && 0 < y < self.size - 1 ==> self.neighbors(x, y).len() == 8,
            (x == 0 || x == self.size - 1) && 0 < y < self.size - 1 ==> self.neighbors(x, y).len()
                == 5,
            0 < x < self.size - 1 && (y == 0 || y == self.size - 1) ==> self.neighbors(x, y).len()
                == 5,
            self.size >= 2 && (x == 0 || x == self.size - 1) && (y == 0 || y == self.size - 1)
                ==> self.neighbors(x, y).len() == 3,
    {
        reveal_with_fuel(Board::neighbor_positions_upto, 10);
        let across = span(self.size, x);
        let down = span(self.size, y);
        assert(across * down == if across == 1 {
            down
        } else if across == 2 {
            2 * down
        } else {
            3 * down
        }) by (nonlinear_arith)
            requires
                1 <= across <= 3,
        ;
    }

    /// The successor of a field follows it: it has the same size, and at each
    /// position the rule decides from the cell and its live neighbours here.
    pub proof fn lemma_successor_steps(self)
        requires
            self.wf(),
        ensures
            self.steps_to(self.successor()),
    {
        let next = self.successor();
        assert forall|x: int, y: int| #[trigger] self.contains(x, y) implies (next.cell(
            x,
            y,
        ).alive <==> lives_on(self.cell(x, y).alive, self.live_neighbors(x, y) as int)) by {
            self.lemma_index_in_range(x, y);
        }
    }

    /// The next generation is determined by this one: two fields that both
    /// follow it are the same field.
    pub proof fn lemma_step_is_determined(self, first: Board, second: Board)
        requires
            self.wf(),
            self.steps_to(first),
            self.steps_to(second),
        ensures
            first == second,
    {
        assert forall|i: int| 0 <= i < first.cells.len() implies first.cells[i]
            == second.cells[i] by {
            self.lemma_place_has_position(i);
            let x = i % self.size;
            let y = i / self.size;
            assert(self.contains(x, y));
            assert(first.cell(x, y).alive == second.cell(x, y).alive);
        }
        assert(first.cells =~= second.cells);
    }

    /// Stepping keeps the size: after any number of generations the field
    /// is still `size` by `size`.
    pub proof fn lemma_size_is_kept(self, k: nat)
        requires
            self.wf(),
        ensures
            self.after(k).size == self.size,
            self.after(k).wf(),
        decreases k,
    {
        if k > 0 {
            self.lemma_size_is_kept((k - 1) as nat);
        }
    }

    /// What the `k`-th position of the block around `(x, y)` adds to the
    /// live neighbours counted so far: nothing for the centre or a position
    /// outside the field, else one if the cell there is alive.
    proof fn lemma_live_neighbors_step(self, x: int, y: int, k: int)
        requires
            k >= 0,
        ensures
            live_count(self.cells_at(self.neighbor_positions_upto(x, y, k + 1))) == live_count(
                self.cells_at(self.neighbor_positions_upto(x, y, k)),
            ) + if k != 4 {
                self.lit(Self::around(x, y, k).0, Self::around(x, y, k).1)
            } else {
                0
            },
    {
        let before = self.neighbor_positions_upto(x, y, k);
        let p = Self::around(x, y, k);
        if k != 4 && self.contains(p.0, p.1) {
            assert(self.cells_at(before.push(p)) =~= self.cells_at(before).push(
                self.cell(p.0, p.1),
            ));
            lemma_live_count_push(self.cells_at(before), self.cell(p.0, p.1));
        }
    }

    /// The live neighbours of a cell, direction by direction: the three
    /// positions above, the two beside and the three below, each counted
    /// only if it lies inside the field and its cell is alive.
    pub proof fn lemma_live_neighbors_by_direction(self, x: int, y: int)
        ensures
            self.live_neighbors(x, y) == self.lit(x - 1, y - 1) + self.lit(x, y - 1) + self.lit(
                x + 1,
                y - 1,
            ) + self.lit(x - 1, y) + self.lit(x + 1, y) + self.lit(x - 1, y + 1) + self.lit(
                x,
                y + 1,
            ) + self.lit(x + 1, y + 1),
            self.live_neighbors(x, y) <= 8,
    {
        assert(self.cells_at(self.neighbor_positions_upto(x, y, 0)) =~= Seq::<Cell>::empty());
        self.lemma_live_neighbors_step(x, y, 0);
        self.lemma_live_neighbors_step(x, y, 1);
        self.lemma_live_neighbors_step(x, y, 2);
        self.lemma_live_neighbors_step(x, y, 3);
        self.lemma_live_neighbors_step(x, y, 4);
        self.lemma_live_neighbors_step(x, y, 5);
        self.lemma_live_neighbors_step(x, y, 6);
        self.lemma_live_neighbors_step(x, y, 7);
        self.lemma_live_neighbors_step(x, y, 8);
    }

    /// The first `k` cells of row `y` as text: one glyph for each cell, one
    /// blank between two cells.
    pub open spec fn row_text(self, y: int, k: int) -> Seq<char>
        decreases k,
    {
        if k <= 0 {
            Seq::empty()
        } else if k == 1 {
            seq![glyph(self.cell(0, y))]
        } else {
            self.row_text(y, k - 1).push(' ').push(glyph(self.cell(k - 1, y)))
        }
    }

    /// The first `rows` rows as text, each ended by a line break.
    pub open spec fn rows_text(self, rows: int) -> Seq<char>
        decreases rows,
    {
        if rows <= 0 {
            Seq::empty()
        } else {
            self.rows_text(rows - 1) + self.row_text(rows - 1, self.size).push('\n')
        }
    }

    /// The whole field as text.
    pub open spec fn text(self) -> Seq<char> {
        self.rows_text(self.size)
    }

    /// A position is among the neighbours found in the first `k` positions
    /// of the block exactly when it lies inside the field and is one of
    /// those positions, other than the centre.
    proof fn lemma_positions_upto(self, x: int, y: int, k: int, p: (int, int))
        requires
            0 <= k,
        ensures
            self.neighbor_positions_upto(x, y, k).contains(p) <==> self.contains(p.0, p.1)
                && exists|j: int| 0 <= j < k && j != 4 && p == #[trigger] Self::around(x, y, j),
        decreases k,
    {
        if k > 0 {
            self.lemma_positions_upto(x, y, k - 1, p);
            let before = self.neighbor_positions_upto(x, y, k - 1);
            let q = Self::around(x, y, k - 1);
            if k - 1 != 4 && self.contains(q.0, q.1) {
                lemma_seq_contains_after_push(before, q, p);
            }
        }
    }

    /// The neighbours of `(x, y)` are the positions of the field that lie
    /// next to it, each of them once.
    pub proof fn lemma_neighbors_are_the_adjacent_positions(self, x: int, y: int, a: int, b: int)
        ensures
            self.neighbor_positions(x, y).contains((a, b)) <==> self.contains(a, b) && adjacent(
                x,
                y,
                a,
                b,
            ),
            self.neighbor_positions(x, y).no_duplicates(),
    {
        self.lemma_positions_upto(x, y, 9, (a, b));
        if self.contains(a, b) && adjacent(x, y, a, b) {
            let j = (b - y + 1) * 3 + (a - x + 1);
            assert((a, b) == Self::around(x, y, j));
        }
        self.lemma_positions_are_distinct(x, y, 9);
    }

    /// No position comes twice among the neighbours found in the first `k`
    /// positions of the block.
    proof fn lemma_positions_are_distinct(self, x: int, y: int, k: int)
        requires
            0 <= k,
        ensures
            self.neighbor_positions_upto(x, y, k).no_duplicates(),
        decreases k,
    {
        if k > 0 {
            self.lemma_positions_are_distinct(x, y, k - 1);
            let before = self.neighbor_positions_upto(x, y, k - 1);
            let q = Self::around(x, y, k - 1);
            self.lemma_positions_upto(x, y, k - 1, q);
            if k - 1 != 4 && self.contains(q.0, q.1) {
                assert(!before.contains(q));
                assert forall|i: int, j: int|
                    0 <= i < before.len() + 1 && 0 <= j < before.len() + 1 && i != j implies before.push(
                    q,
                )[i] != before.push(q)[j] by {
                    if i < before.len() {
                        assert(before.contains(before[i]));
                    }
                    if j < before.len() {
                        assert(before.contains(before[j]));
                    }
                }
            }
        }
    }

} // impl Board

} // verus!
