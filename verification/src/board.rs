//! A board that is rectangular and holds at least one cell by
//! construction.

use vstd::prelude::*;
use crate::grid::{grid_of, has_shape, height, inhabited, next_generation, rectangular, width};
use crate::rules::{is_rectangular, next_board_state};
use crate::seed::initialize_board;

verus! {

/// Why a board could not be made.
#[derive(Debug, Clone, Copy, PartialEq, Eq)]
pub enum BoardError {
    /// The number of rows or of columns is zero.
    InvalidDimensions,
    /// The rows do not all have the same length.
    ShapeViolation,
}

/// A grid of cells, `true` for alive, with at least one row and one column
/// and all rows of one length. Its view is the grid as a sequence of rows.
#[derive(Debug, PartialEq, Eq)]
pub struct Board {
    cells: Vec<Vec<bool>>,
}

impl View for Board {
    type V = Seq<Seq<bool>>;

    closed spec fn view(&self) -> Seq<Seq<bool>> {
        grid_of(&self.cells)
    }
}

impl Clone for Board {
    /// A board of its own with the same cells.
    fn clone(&self) -> (copy: Board)
        ensures
            copy@ == self@,
    {
        proof {
            use_type_invariant(self);
        }
        let mut cells: Vec<Vec<bool>> = Vec::new();
        let mut i: usize = 0;
        while i < self.cells.len()
            invariant
                i <= self.cells.len(),
                cells.len() == i,
                forall|k: int| 0 <= k < i ==> (#[trigger] cells@[k])@ == self.cells@[k]@,
            decreases self.cells.len() - i,
        {
            let row = self.cells[i].clone();
            assert(row@ =~= self.cells@[i as int]@);
            cells.push(row);
            i += 1;
        }
        assert(grid_of(&cells) =~= grid_of(&self.cells));
        Board { cells }
    }
}

impl Board {
    #[verifier::type_invariant]
    spec fn well_formed(self) -> bool {
        inhabited(grid_of(&self.cells))
    }

    /// Takes `cells` as a board, row by row.
    ///
    /// Fails with `InvalidDimensions` where there is no row or the first
    /// row is empty, and otherwise with `ShapeViolation` where some row is
    /// not as long as the first.
    pub fn from_rows(cells: Vec<Vec<bool>>) -> (made: Result<Board, BoardError>)
        ensures
            match made {
                Ok(board) => inhabited(grid_of(&cells)) && board@ == grid_of(&cells),
                Err(BoardError::InvalidDimensions) => height(grid_of(&cells)) == 0 || width(
                    grid_of(&cells),
                ) == 0,
                Err(BoardError::ShapeViolation) => height(grid_of(&cells)) > 0 && width(
                    grid_of(&cells),
                ) > 0 && !rectangular(grid_of(&cells)),
            },
    {
        if cells.len() == 0 {
            return Err(BoardError::InvalidDimensions);
        }
        assert(grid_of(&cells)[0] == cells@[0]@);
        if cells[0].len() == 0 {
            return Err(BoardError::InvalidDimensions);
        }
        if !is_rectangular(&cells) {
            return Err(BoardError::ShapeViolation);
        }
        Ok(Board { cells })
    }

    /// Makes a board of `rows` rows and `cols` columns whose cells are each
    /// set alive or dead by an unbiased random draw.
    ///
    /// Fails with `InvalidDimensions` exactly where `rows` or `cols` is
    /// zero; no other error comes from here.
    pub fn initialize(rows: usize, cols: usize) -> (made: Result<Board, BoardError>)
        ensures
            match made {
                Ok(board) => rows > 0 && cols > 0 && has_shape(board@, rows as int, cols as int)
                    && inhabited(board@),
                Err(e) => (rows == 0 || cols == 0) && e == BoardError::InvalidDimensions,
            },
    {
        if rows == 0 || cols == 0 {
            return Err(BoardError::InvalidDimensions);
        }
        let cells = initialize_board(rows, cols);
        assert(grid_of(&cells)[0].len() == cols);
        Ok(Board { cells })
    }

    /// The next generation, as a new board of the same shape; this board
    /// stays as it is.
    pub fn advance(&self) -> (next: Board)
        ensures
            next@ == next_generation(self@),
            has_shape(next@, height(self@), width(self@)),
            inhabited(next@),
    {
        proof {
            use_type_invariant(self);
        }
        let cells = next_board_state(&self.cells);
        assert(grid_of(&cells)[0].len() == width(grid_of(&self.cells)));
        Board { cells }
    }

    /// The number of rows.
    pub fn rows(&self) -> (n: usize)
        ensures
            n == height(self@),
            n > 0,
    {
        proof {
            use_type_invariant(self);
        }
        self.cells.len()
    }

    /// The number of columns.
    pub fn cols(&self) -> (n: usize)
        ensures
            n == width(self@),
            n > 0,
    {
        proof {
            use_type_invariant(self);
        }
        assert(grid_of(&self.cells)[0] == self.cells@[0]@);
        self.cells[0].len()
    }

    /// The cells, row by row, to read.
    pub fn cells(&self) -> (cells: &Vec<Vec<bool>>)
        ensures
            grid_of(cells) == self@,
            inhabited(self@),
    {
        proof {
            use_type_invariant(self);
        }
        &self.cells
    }
}

} // verus!
