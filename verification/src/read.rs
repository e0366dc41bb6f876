use vstd::prelude::*;

use crate::error::GolError;
use crate::utils::{
    lemma_origin_neighbors, neighbor_coordinate, neighbor_coordinates_of, next_state,
};

verus! {

/// The mathematical content of a board: its dimensions and, for every
/// coordinate on it, what the storage holds there. `None` stands for a
/// position at which the storage holds no valid cell.
pub struct Board {
    pub width: nat,
    pub height: nat,
    pub cells: Seq<Seq<Option<bool>>>,
}

impl Board {
    /// Whether `(x, y)` lies on the board.
    pub open spec fn in_range(self, x: int, y: int) -> bool {
        0 <= x < self.width && 0 <= y < self.height
    }

    /// What the storage holds at `(x, y)`; nothing off the board.
    pub open spec fn cell(self, x: int, y: int) -> Option<bool> {
        if self.in_range(x, y) {
            self.cells[y][x]
        } else {
            None
        }
    }

    /// Whether the storage holds a value for every cell of the board.
    pub open spec fn full(self) -> bool {
        forall|x: int, y: int| self.in_range(x, y) ==> (#[trigger] self.cell(x, y)) is Some
    }

    /// What reading the cell at `(x, y)` owes.
    pub open spec fn read_cell(self, x: usize, y: usize) -> Result<bool, GolError> {
        if !self.in_range(x as int, y as int) {
            Err(GolError::OutOfRange)
        } else {
            match self.cells[y as int][x as int] {
                Some(value) => Ok(value),
                None => Err(GolError::CorruptData),
            }
        }
    }

    /// The `i`-th neighbor of `(x, y)`: its value where the neighbor lies on
    /// the board and the storage holds one, otherwise absent.
    pub open spec fn neighbor(self, x: usize, y: usize, i: int) -> Option<bool> {
        match neighbor_coordinate(x, y, i) {
            Some((nx, ny)) => self.cell(nx as int, ny as int),
            None => None,
        }
    }

    /// All eight neighbors of `(x, y)`, clockwise from the north-west.
    pub open spec fn neighbors(self, x: usize, y: usize) -> Seq<Option<bool>> {
        Seq::new(8, |i: int| self.neighbor(x, y, i))
    }

    /// The position that follows `(x, y)` when the board is walked row by
    /// row, each row from its first column.
    pub open spec fn following(self, x: usize, y: usize) -> (int, int) {
        if x + 1 == self.width {
            (0, y + 1)
        } else {
            (x + 1, y as int)
        }
    }

    /// The value of the cell at `(x, y)` in the next generation, for a cell
    /// that is currently `current`.
    pub open spec fn next_cell(self, current: bool, x: usize, y: usize) -> bool {
        next_state(current, self.neighbors(x, y))
    }
}

/// On a board of at least two rows and two columns that holds a value for
/// every cell, the cell at the origin has exactly three neighbors: those to
/// the east, south-east and south. The other five are absent.
pub proof fn lemma_corner_neighbors(board: Board)
    requires
        board.width >= 2,
        board.height >= 2,
        board.full(),
    ensures
        forall|i: int|
            0 <= i < 8 ==> (#[trigger] board.neighbors(0, 0)[i] is Some <==> (3 <= i <= 5)),
{
    lemma_origin_neighbors();
    assert forall|i: int| 0 <= i < 8 implies (#[trigger] board.neighbors(0, 0)[i] is Some <==> (3
        <= i <= 5)) by {
        assert(neighbor_coordinates_of(0, 0)[i] == neighbor_coordinate(0, 0, i));
        if 3 <= i <= 5 {
            let (nx, ny) = neighbor_coordinate(0, 0, i).unwrap();
            assert(board.in_range(nx as int, ny as int));
            assert(board.cell(nx as int, ny as int) is Some);
        }
    }
}

/// A generic way to interact with Game of Life representations.
///
/// A reader stands for a board. A coordinate off the board is always
/// refused. A reader that is `reliable` owes every answer exactly as the
/// board has it; one that is not may fail, or miss a neighbor, for want of
/// what lies behind it.
pub trait Read {
    /// The validity of the reader's internal state.
    spec fn inv(&self) -> bool;

    /// The board that the reader reads.
    spec fn board(&self) -> Board;

    /// Whether every read is answered exactly as the board gives it.
    spec fn reliable(&self) -> bool;

    /// Reads the cell at the coordinates provided. A coordinate off the board
    /// is always refused with `OutOfRange`.
    fn read_cell(&mut self, x: usize, y: usize) -> (r: Result<bool, GolError>)
        requires
            old(self).inv(),
        ensures
            final(self).inv(),
            final(self).board() == old(self).board(),
            final(self).reliable() == old(self).reliable(),
            !old(self).board().in_range(x as int, y as int) ==> r == Err::<bool, GolError>(
                GolError::OutOfRange,
            ),
            old(self).reliable() ==> r == old(self).board().read_cell(x, y),
    ;

    /// Reads all eight surrounding cells, clockwise from the north-west. A
    /// neighbor off the board, or one whose value cannot be had, is `None`.
    fn read_neighbors(&mut self, x: usize, y: usize) -> (r: Result<[Option<bool>; 8], GolError>)
        requires
            old(self).inv(),
        ensures
            final(self).inv(),
            final(self).board() == old(self).board(),
            final(self).reliable() == old(self).reliable(),
            old(self).reliable() ==> (r matches Ok(found) && found@ == old(self).board().neighbors(
                x,
                y,
            )),
    ;

    /// The width of the board.
    fn width(&self) -> (r: usize)
        requires
            self.inv(),
        ensures
            r == self.board().width,
    ;

    /// The height of the board.
    fn height(&self) -> (r: usize)
        requires
            self.inv(),
        ensures
            r == self.board().height,
    ;
}

} // verus!
