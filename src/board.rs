//! A grid of cells, each off the board, empty, or holding an occupant.
use vstd::prelude::*;
use crate::geometry::{in_grid, on_star, idx, is_valid, SIDE, CELLS};

verus! {

broadcast use vstd::seq_lib::group_seq_properties;

/// What a coordinate holds.
#[derive(Clone, Copy, Debug, PartialEq, Eq)]
pub enum Cell<T> {
    OffBoard,
    Empty,
    Occupied(T),
}

/// Why a board write was refused.
#[derive(Clone, Copy, Debug, PartialEq, Eq, Structural)]
pub enum BoardError {
    /// The coordinate is not a position of the star.
    OffBoard,
}

/// The content of cell `(r, c)` of a grid laid out row by row.
pub open spec fn cell_at<T>(g: Seq<Option<T>>, r: int, c: int) -> Option<T> {
    g[idx((r, c))]
}

/// A grid of the right size whose off-board cells hold nothing.
pub open spec fn grid_wf<T>(g: Seq<Option<T>>) -> bool {
    &&& g.len() == 289
    &&& forall|r: int, c: int|
        in_grid(r, c) && !on_star(r, c) ==> #[trigger] cell_at(g, r, c) is None
}

/// The board: one cell per coordinate of the square grid, off-board cells
/// permanently empty.
#[derive(Clone, Debug, PartialEq, Eq)]
pub struct Board<T> {
    cells: Vec<Option<T>>,
}

impl<T> View for Board<T> {
    type V = Seq<Option<T>>;

    closed spec fn view(&self) -> Seq<Option<T>> {
        self.cells@
    }
}

impl<T: Copy> Board<T> {
    /// The board's invariant.
    pub open spec fn wf(&self) -> bool {
        grid_wf(self@)
    }

    /// The occupant of `(r, c)`, if any.
    pub open spec fn at(&self, r: int, c: int) -> Option<T> {
        cell_at(self@, r, c)
    }

    /// A board with every cell empty.
    pub fn new() -> (b: Self)
        ensures
            b.wf(),
            forall|r: int, c: int| in_grid(r, c) ==> #[trigger] b.at(r, c) is None,
    {
        let mut cells: Vec<Option<T>> = Vec::new();
        let mut i: usize = 0;
        while i < CELLS
            invariant
                i <= 289,
                cells@.len() == i,
                forall|j: int| 0 <= j < i ==> #[trigger] cells@[j] is None,
            decreases 289 - i,
        {
            cells.push(None);
            i = i + 1;
        }
        Board { cells }
    }

    /// A copy of this board.
    pub fn snapshot(&self) -> (b: Self)
        ensures
            b@ == self@,
    {
        let mut cells: Vec<Option<T>> = Vec::new();
        let mut i: usize = 0;
        while i < self.cells.len()
            invariant
                i <= self.cells@.len(),
                cells@ == self.cells@.subrange(0, i as int),
            decreases self.cells@.len() - i,
        {
            cells.push(self.cells[i]);
            i = i + 1;
        }
        assert(cells@ == self.cells@);
        Board { cells }
    }

    /// What `(row, col)` holds.
    pub fn get(&self, row: usize, col: usize) -> (r: Cell<T>)
        requires
            self.wf(),
        ensures
            r == (if !on_star(row as int, col as int) {
                Cell::OffBoard
            } else {
                match self.at(row as int, col as int) {
                    None => Cell::Empty,
                    Some(t) => Cell::Occupied(t),
                }
            }),
    {
        if !is_valid(row, col) {
            return Cell::OffBoard;
        }
        match self.cells[row * SIDE + col] {
            None => Cell::Empty,
            Some(t) => Cell::Occupied(t),
        }
    }

    /// The occupant of `(row, col)`; `None` for an empty or off-board cell.
    pub fn occupant(&self, row: usize, col: usize) -> (r: Option<T>)
        requires
            self.wf(),
        ensures
            r == (if in_grid(row as int, col as int) {
                self.at(row as int, col as int)
            } else {
                None
            }),
    {
        if row >= SIDE || col >= SIDE {
            return None;
        }
        self.cells[row * SIDE + col]
    }

    /// Whether `(row, col)` is a position of the star that holds nothing.
    pub fn is_empty(&self, row: usize, col: usize) -> (r: bool)
        requires
            self.wf(),
        ensures
            r == (on_star(row as int, col as int) && self.at(row as int, col as int) is None),
    {
        if !is_valid(row, col) {
            return false;
        }
        self.cells[row * SIDE + col].is_none()
    }

    /// Writes `value` into `(row, col)`; refused, with no change, off the star.
    pub fn set(&mut self, row: usize, col: usize, value: Option<T>) -> (r: Result<(), BoardError>)
        requires
            old(self).wf(),
        ensures
            final(self).wf(),
            on_star(row as int, col as int) ==> r is Ok && final(self)@ == old(self)@.update(
                idx((row as int, col as int)),
                value,
            ),
            !on_star(row as int, col as int) ==> r == Err::<(), BoardError>(BoardError::OffBoard)
                && final(self)@ == old(self)@,
    {
        if !is_valid(row, col) {
            return Err(BoardError::OffBoard);
        }
        self.cells.set(row * SIDE + col, value);
        proof {
            let g = self@;
            assert forall|r: int, c: int|
                in_grid(r, c) && !on_star(r, c) implies #[trigger] cell_at(g, r, c) is None by {
                assert(idx((r, c)) != idx((row as int, col as int)));
                assert(cell_at(old(self)@, r, c) is None);
            }
        }
        Ok(())
    }
}

} // verus!
