//! The grid that runs: cells in a vector, neighbour counting without
//! wrap-around, and the step from one generation to the next.

use vstd::prelude::*;
use crate::board::Board;
use crate::board::live_count;
use crate::cell::Cell;
use crate::cell::next_state;

verus! {

/// A square grid of cells, `size` to a side, stored row by row.
#[derive(Debug, PartialEq, Eq)]
pub struct Grid {
    size: usize,
    contents: Vec<Cell>,
}

impl View for Grid {
    type V = Board;

    closed spec fn view(&self) -> Board {
        Board { size: self.size as int, cells: self.contents@ }
    }
}

impl Clone for Grid {
    fn clone(&self) -> (copy: Grid)
        ensures
            copy@ == self@,
    {
        Grid { size: self.size, contents: self.contents.clone() }
    }
}

impl Grid {
    /// The grid holds `size * size` cells.
    pub open spec fn wf(&self) -> bool {
        self@.wf()
    }

    /// A grid of the given side length over the given cells, row by row;
    /// `None` unless there are exactly `size * size` of them.
    pub fn from_cells(size: usize, cells: Vec<Cell>) -> (made: Option<Grid>)
        ensures
            made.is_some() <==> cells@.len() == size * size,
            made matches Some(grid) ==> grid.wf() && grid@.cells.len() == size * size && grid@
                == (Board { size: size as int, cells: cells@ }),
    {
        let given: usize = cells.len();
        match size.checked_mul(size) {
            Some(area) => {
                if given == area {
                    Some(Grid { size, contents: cells })
                } else {
                    None
                }
            },
            None => None,
        }
    }

    /// The side length.
    pub fn size(&self) -> (n: usize)
        ensures
            n == self@.size,
    {
        self.size
    }

    /// Where the cell at column `x`, row `y` stands in the row-major order.
    pub fn index(&self, x: usize, y: usize) -> (i: usize)
        requires
            self.wf(),
            self@.contains(x as int, y as int),
        ensures
            i == self@.index(x as int, y as int),
            i < self@.cells.len(),
    {
        let area: usize = self.contents.len();
        proof {
            self@.lemma_index_in_range(x as int, y as int);
            assert(0 <= y * self.size <= self@.index(x as int, y as int) < area) by (nonlinear_arith)
                requires
                    x >= 0,
                    y >= 0,
                    self.size >= 0,
                    self@.index(x as int, y as int) == y * self.size + x,
                    self@.index(x as int, y as int) < area,
            ;
        }
        y * self.size + x
    }

    /// The cell at column `x`, row `y`.
    pub fn get(&self, x: usize, y: usize) -> (cell: Cell)
        requires
            self.wf(),
            self@.contains(x as int, y as int),
        ensures
            cell == self@.cell(x as int, y as int),
    {
        let i: usize = self.index(x, y);
        self.contents[i]
    }

    /// Puts `cell` at column `x`, row `y`; every other cell stays.
    pub fn set(&mut self, x: usize, y: usize, cell: Cell)
        requires
            old(self).wf(),
            old(self)@.contains(x as int, y as int),
        ensures
            final(self).wf(),
            final(self)@.size == old(self)@.size,
            final(self)@.cells == old(self)@.cells.update(
                old(self)@.index(x as int, y as int),
                cell,
            ),
    {
        let i: usize = self.index(x, y);
        self.contents.set(i, cell);
    }

    /// The cells next to `(x, y)`: up to eight, fewer at an edge, row by row.
    pub fn neighbors_of(&self, x: usize, y: usize) -> (found: Vec<Cell>)
        requires
            self.wf(),
            self@.contains(x as int, y as int),
        ensures
            found@ == self@.neighbors(x as int, y as int),
    {
        let area: usize = self.contents.len();
        proof {
            let n = self.size as int;
            assert(n >= 2 ==> n * n >= 2 * n) by (nonlinear_arith);
        }
        let mut found: Vec<Cell> = Vec::new();
        let mut k: usize = 0;
        while k < 9
            invariant
                self.wf(),
                self@.contains(x as int, y as int),
                k <= 9,
                x + 2 <= usize::MAX,
                y + 2 <= usize::MAX,
                found@ == self@.cells_at(
                    self@.neighbor_positions_upto(x as int, y as int, k as int),
                ),
            decreases 9 - k,
        {
            let right: usize = x + k % 3;
            let down: usize = y + k / 3;
            if k != 4 && right >= 1 && right - 1 < self.size && down >= 1 && down - 1
                < self.size {
                let cell = self.get(right - 1, down - 1);
                found.push(cell);
            }
            k = k + 1;
            assert(found@ =~= self@.cells_at(
                self@.neighbor_positions_upto(x as int, y as int, k as int),
            ));
        }
        found
    }

    /// How many of the cells next to `(x, y)` are alive.
    pub fn live_neighbor_count(&self, x: usize, y: usize) -> (count: usize)
        requires
            self.wf(),
            self@.contains(x as int, y as int),
        ensures
            count == self@.live_neighbors(x as int, y as int),
            count <= 8,
    {
        let around = self.neighbors_of(x, y);
        proof {
            self@.lemma_neighbor_count(x as int, y as int);
        }
        let mut count: usize = 0;
        let mut i: usize = 0;
        while i < around.len()
            invariant
                i <= around@.len() <= 8,
                count <= i,
                count == live_count(around@.take(i as int)),
            decreases around@.len() - i,
        {
            assert(around@.take(i + 1).drop_last() =~= around@.take(i as int));
            if around[i].alive {
                count = count + 1;
            }
            i = i + 1;
        }
        assert(around@.take(i as int) =~= around@);
        count
    }

    /// The next generation as a grid of its own; this one stays as it is.
    pub fn generate(&self) -> (next: Grid)
        requires
            self.wf(),
        ensures
            next.wf(),
            next@ == self@.successor(),
            self@.steps_to(next@),
    {
        let mut cells: Vec<Cell> = Vec::new();
        let mut i: usize = 0;
        while i < self.contents.len()
            invariant
                self.wf(),
                i <= self.contents@.len(),
                cells@.len() == i,
                forall|j: int| 0 <= j < i ==> cells@[j] == self@.successor_cell(j),
            decreases self.contents@.len() - i,
        {
            proof {
                self@.lemma_place_has_position(i as int);
            }
            let x: usize = i % self.size;
            let y: usize = i / self.size;
            let live: usize = self.live_neighbor_count(x, y);
            cells.push(Cell { alive: next_state(self.contents[i].alive, live) });
            i = i + 1;
        }
        let next = Grid { size: self.size, contents: cells };
        proof {
            assert(next@.cells =~= self@.successor().cells);
            self@.lemma_successor_steps();
        }
        next
    }

    /// Replaces this generation by the next. Every new cell is decided from
    /// the old generation alone.
    pub fn generate_mut(&mut self)
        requires
            old(self).wf(),
        ensures
            final(self).wf(),
            final(self)@ == old(self)@.successor(),
            old(self)@.steps_to(final(self)@),
            final(self)@.size == old(self)@.size,
    {
        let next = self.generate();
        self.contents = next.contents;
    }
    /// The grid as text: one line for each row, `#` for a live cell and a
    /// blank for a dead one, one blank between two cells of a row, a line
    /// break after each row.
    pub fn render(&self) -> (text: String)
        requires
            self.wf(),
        ensures
            text@ == self@.text(),
    {
        proof {
            reveal_strlit("#");
            reveal_strlit(" ");
            reveal_strlit("\n");
        }
        let mut text = String::new();
        let mut y: usize = 0;
        while y < self.size
            invariant
                self.wf(),
                y <= self.size,
                "#"@ == seq!['#'],
                " "@ == seq![' '],
                "\n"@ == seq!['\n'],
                text@ == self@.rows_text(y as int),
            decreases self.size - y,
        {
            let ghost above = text@;
            let mut x: usize = 0;
            while x < self.size
                invariant
                    self.wf(),
                    y < self.size,
                    x <= self.size,
                    "#"@ == seq!['#'],
                    " "@ == seq![' '],
                    text@ == above + self@.row_text(y as int, x as int),
                decreases self.size - x,
            {
                if x > 0 {
                    text.append(" ");
                }
                if self.get(x, y).alive {
                    text.append("#");
                } else {
                    text.append(" ");
                }
                x = x + 1;
                assert(text@ =~= above + self@.row_text(y as int, x as int));
            }
            text.append("\n");
            y = y + 1;
            assert(text@ =~= self@.rows_text(y as int));
        }
        text
    }
}

} // verus!
