use vstd::prelude::*;

use crate::error::GolError;
use crate::io::gol_file::GoLFile;
use crate::io::store::ByteStore;
use crate::read::{Board, Read};
use crate::utils::{is_alive, neighbor_coordinate, neighbor_coordinates, neighbor_coordinates_of};

verus! {

/// The rows that a vector of rows holds.
pub open spec fn rows_of(rows: Vec<Vec<bool>>) -> Seq<Seq<bool>> {
    Seq::new(rows.len() as nat, |y: int| rows[y]@)
}

/// The width that a board made from `rows` alone has: the length of the
/// first row, or zero if there is none.
pub open spec fn first_row_len(rows: Seq<Seq<bool>>) -> nat {
    if rows.len() > 0 {
        rows[0].len()
    } else {
        0
    }
}

/// The board of `width` columns that `rows` hold. Where a row is too short
/// to reach a column, the board holds nothing.
pub open spec fn grid_board(width: nat, rows: Seq<Seq<bool>>) -> Board {
    Board {
        width,
        height: rows.len(),
        cells: Seq::new(
            rows.len(),
            |y: int|
                Seq::new(
                    width,
                    |x: int|
                        if x < rows[y].len() {
                            Some(rows[y][x])
                        } else {
                            None
                        },
                ),
        ),
    }
}

/// Whether every row is exactly `width` long.
pub open spec fn rectangular<A>(width: nat, rows: Seq<Seq<A>>) -> bool {
    forall|y: int| 0 <= y < rows.len() ==> (#[trigger] rows[y]).len() == width
}

/// The rows of the generation that follows: every cell of the board, with
/// the rule of the game applied to it and its neighbors.
pub open spec fn next_generation(width: nat, rows: Seq<Seq<bool>>) -> Seq<Seq<bool>> {
    Seq::new(
        rows.len(),
        |y: int|
            Seq::new(
                width,
                |x: int| grid_board(width, rows).next_cell(rows[y][x], x as usize, y as usize),
            ),
    )
}

/// An in-memory representation of Conway's Game of Life as a fixed size
/// board with dead and alive cells.
///
/// For a memory efficient equivalent that reads from a byte store, see
/// `GoLFile`.
#[derive(Debug, Eq)]
pub struct GameOfLife {
    width: usize,
    height: usize,
    inner: Vec<Vec<bool>>,
}

impl View for GameOfLife {
    type V = Seq<Seq<bool>>;

    /// The rows of the board.
    closed spec fn view(&self) -> Seq<Seq<bool>> {
        rows_of(self.inner)
    }
}

impl GameOfLife {
    /// The width of the board.
    pub closed spec fn cols(&self) -> nat {
        self.width as nat
    }

    /// The recorded height is the number of rows.
    pub closed spec fn valid(&self) -> bool {
        self.height == self.inner.len()
    }

    /// A board of the given width over the given rows.
    pub(crate) fn with_width(width: usize, rows: Vec<Vec<bool>>) -> (r: Self)
        ensures
            r.valid(),
            r.cols() == width,
            r@ == rows_of(rows),
    {
        let height = rows.len();
        GameOfLife { inner: rows, width, height }
    }

    /// Whether every row of the board is as long as the board is wide.
    pub fn is_rectangular(&self) -> (r: bool)
        ensures
            r == rectangular(self.cols(), self@),
    {
        let mut y: usize = 0;
        while y < self.inner.len()
            invariant
                y <= self.inner.len(),
                forall|k: int| 0 <= k < y ==> (#[trigger] self@[k]).len() == self.cols(),
            decreases self.inner.len() - y,
        {
            if self.inner[y].len() != self.width {
                assert(self@[y as int].len() != self.cols());
                return false;
            }
            y = y + 1;
        }
        true
    }

    /// Run the ruleset against the board and create the next iteration.
    pub fn transition(&self) -> (next: Self)
        requires
            self.valid(),
            rectangular(self.cols(), self@),
        ensures
            next.valid(),
            next.cols() == self.cols(),
            next@ == next_generation(self.cols(), self@),
    {
        let mut next: Vec<Vec<bool>> = Vec::new();
        let mut y: usize = 0;
        while y < self.height
            invariant
                self.valid(),
                rectangular(self.cols(), self@),
                y <= self.height,
                next.len() == y,
                forall|k: int|
                    0 <= k < y ==> (#[trigger] next[k])@ == next_generation(self.cols(), self@)[k],
            decreases self.height - y,
        {
            let mut row: Vec<bool> = Vec::new();
            let mut x: usize = 0;
            assert(self@[y as int].len() == self.cols());
            while x < self.width
                invariant
                    self.valid(),
                    y < self.height,
                    self@[y as int].len() == self.cols(),
                    x <= self.width,
                    row.len() == x,
                    forall|k: int|
                        0 <= k < x ==> #[trigger] row[k] == next_generation(
                            self.cols(),
                            self@,
                        )[y as int][k],
                decreases self.width - x,
            {
                let cell = self.inner_read_cell(x, y);
                let neighbors = self.inner_read_neighbors(x, y);
                row.push(is_alive(cell, neighbors.as_slice()));
                x = x + 1;
            }
            assert(row@ =~= next_generation(self.cols(), self@)[y as int]);
            next.push(row);
            y = y + 1;
        }
        assert(rows_of(next) =~= next_generation(self.cols(), self@));
        GameOfLife { inner: next, width: self.width, height: self.height }
    }

    /// The cells of the board, from `(0, 0)` on, row by row.
    pub fn iter(&self) -> (cells: Vec<bool>)
        ensures
            cells@ == self@.flatten(),
    {
        let mut cells: Vec<bool> = Vec::new();
        let mut y: usize = 0;
        while y < self.inner.len()
            invariant
                y <= self.inner.len(),
                cells@ == self@.take(y as int).flatten(),
            decreases self.inner.len() - y,
        {
            let row = &self.inner[y];
            let ghost before = cells@;
            let mut x: usize = 0;
            while x < row.len()
                invariant
                    x <= row.len(),
                    cells@ == before + row@.take(x as int),
                decreases row.len() - x,
            {
                cells.push(row[x]);
                assert(row@.take(x + 1) =~= row@.take(x as int).push(row[x as int]));
                x = x + 1;
            }
            proof {
                assert(row@.take(x as int) =~= row@);
                assert(self@.take(y + 1) =~= self@.take(y as int).push(row@));
                self@.take(y as int).lemma_flatten_push(row@);
            }
            y = y + 1;
        }
        assert(self@.take(y as int) =~= self@);
        cells
    }

    /// Reads the whole board that `value` reads into memory, cell by cell in
    /// row order.
    ///
    /// The board that comes back has the reader's size, and over a reliable
    /// store it holds exactly what the store holds. The conversion fails
    /// with `CorruptData` as soon as a cell cannot be read; with a reliable
    /// reader that is the case exactly when the store holds no valid value
    /// for some cell.
    pub fn try_from<R: ByteStore>(value: GoLFile<R>) -> (r: Result<Self, GolError>)
        requires
            value.valid(),
        ensures
            match r {
                Ok(board) => {
                    &&& board.valid()
                    &&& board.cols() == value.cols()
                    &&& board@.len() == value.rows()
                    &&& rectangular(board.cols(), board@)
                    &&& value.store().reliable() ==> grid_board(board.cols(), board@)
                        == value.stored()
                },
                Err(e) => e == GolError::CorruptData,
            },
            value.reliable() ==> (r is Ok <==> value.stored().full()),
    {
        let width = value.width();
        let height = value.height();
        let mut inner: Vec<Vec<bool>> = Vec::new();
        let mut iter = value.into_iter();
        let mut y: usize = 0;
        while y < height
            invariant
                iter.file().valid(),
                iter.file().same_file(&value),
                width > 0 ==> iter.position() == (0usize, y),
                width == value.cols(),
                height == value.rows(),
                y <= height,
                inner.len() == y,
                forall|k: int| 0 <= k < y ==> (#[trigger] inner[k]).len() == width,
                value.store().reliable() ==> forall|k: int, j: int|
                    0 <= k < y && 0 <= j < width ==> value.stored().cell(j, k) == Some(
                        #[trigger] inner[k][j],
                    ),
            decreases height - y,
        {
            let mut buf: Vec<bool> = Vec::new();
            let mut x: usize = 0;
            while x < width
                invariant
                    iter.file().valid(),
                    iter.file().same_file(&value),
                    width > 0 ==> iter.position() == (if x == width {
                        (0usize, (y + 1) as usize)
                    } else {
                        (x, y)
                    }),
                    width == value.cols(),
                    height == value.rows(),
                    y < height,
                    x <= width,
                    buf.len() == x,
                    value.store().reliable() ==> forall|j: int|
                        0 <= j < x ==> value.stored().cell(j, y as int) == Some(#[trigger] buf[j]),
                decreases width - x,
            {
                proof {
                    if value.reliable() {
                        iter.file().lemma_reliable_is_exact(x, y);
                    }
                    assert(iter.file().stored() == value.stored());
                }
                match iter.next() {
                    Some(cell) => {
                        buf.push(cell);
                    },
                    None => {
                        assert(value.reliable() ==> value.stored().cell(x as int, y as int)
                            is None);
                        return Err(GolError::CorruptData);
                    },
                }
                x = x + 1;
            }
            inner.push(buf);
            y = y + 1;
        }
        let board = GameOfLife { width, height, inner };
        proof {
            if value.store().reliable() {
                assert(grid_board(board.cols(), board@).cells =~~= value.stored().cells);
            }
        }
        Ok(board)
    }

    fn inner_read_cell(&self, x: usize, y: usize) -> (cell: bool)
        requires
            y < self@.len(),
            x < self@[y as int].len(),
        ensures
            cell == self@[y as int][x as int],
    {
        self.inner[y][x]
    }

    fn inner_read_neighbors(&self, x: usize, y: usize) -> (found: [Option<bool>; 8])
        requires
            self.valid(),
        ensures
            found@ == grid_board(self.cols(), self@).neighbors(x, y),
    {
        let coordinates = neighbor_coordinates(x, y);
        let mut found: [Option<bool>; 8] = [None;8];
        let mut i: usize = 0;
        while i < 8
            invariant
                i <= 8,
                self.valid(),
                coordinates@ == neighbor_coordinates_of(x, y),
                forall|k: int|
                    0 <= k < i ==> #[trigger] found[k] == grid_board(self.cols(), self@).neighbor(
                        x,
                        y,
                        k,
                    ),
            decreases 8 - i,
        {
            let cell = match coordinates[i] {
                Some((n_x, n_y)) => {
                    if n_y < self.inner.len() && n_x < self.width && n_x < self.inner[n_y].len() {
                        Some(self.inner[n_y][n_x])
                    } else {
                        None
                    }
                },
                None => None,
            };
            proof {
                assert(coordinates[i as int] == neighbor_coordinate(x, y, i as int));
            }
            found[i] = cell;
            i = i + 1;
        }
        assert(found@ =~= grid_board(self.cols(), self@).neighbors(x, y));
        found
    }
}

impl Read for GameOfLife {
    open spec fn inv(&self) -> bool {
        self.valid()
    }

    open spec fn board(&self) -> Board {
        grid_board(self.cols(), self@)
    }

    /// A board in memory answers every read in full.
    open spec fn reliable(&self) -> bool {
        true
    }

    fn read_cell(&mut self, x: usize, y: usize) -> (r: Result<bool, GolError>)
        ensures
            *final(self) == *old(self),
    {
        if x < self.width && y < self.height {
            if x < self.inner[y].len() {
                Ok(self.inner_read_cell(x, y))
            } else {
                Err(GolError::CorruptData)
            }
        } else {
            Err(GolError::OutOfRange)
        }
    }

    fn read_neighbors(&mut self, x: usize, y: usize) -> (r: Result<[Option<bool>; 8], GolError>)
        ensures
            *final(self) == *old(self),
    {
        Ok(self.inner_read_neighbors(x, y))
    }

    fn width(&self) -> (r: usize) {
        self.width
    }

    fn height(&self) -> (r: usize) {
        self.height
    }
}

impl From<Vec<Vec<bool>>> for GameOfLife {
    /// The board that the rows make up. It is as wide as the first row is
    /// long.
    fn from(value: Vec<Vec<bool>>) -> (r: Self)
        ensures
            r.valid(),
            r@ == rows_of(value),
            r.cols() == first_row_len(rows_of(value)),
    {
        let width = if value.len() > 0 {
            value[0].len()
        } else {
            0
        };
        let height = value.len();
        GameOfLife { inner: value, width, height }
    }
}

impl vstd::std_specs::convert::FromSpecImpl<Vec<Vec<bool>>> for GameOfLife {
    open spec fn obeys_from_spec() -> bool {
        true
    }

    closed spec fn from_spec(value: Vec<Vec<bool>>) -> Self {
        GameOfLife {
            inner: value,
            width: if value.len() > 0 {
                value[0].len()
            } else {
                0
            },
            height: value.len(),
        }
    }
}

impl PartialEq for GameOfLife {
    /// Two boards are equal when they have the same width and the same rows.
    fn eq(&self, other: &Self) -> (r: bool) {
        if self.width != other.width {
            return false;
        }
        if self.inner.len() != other.inner.len() {
            assert(self@.len() != other@.len());
            return false;
        }
        let mut y: usize = 0;
        while y < self.inner.len()
            invariant
                y <= self.inner.len(),
                self.inner.len() == other.inner.len(),
                forall|k: int| 0 <= k < y ==> (#[trigger] self@[k]) == other@[k],
            decreases self.inner.len() - y,
        {
            let mine = &self.inner[y];
            let theirs = &other.inner[y];
            if mine.len() != theirs.len() {
                assert(self@[y as int].len() != other@[y as int].len());
                return false;
            }
            let mut x: usize = 0;
            while x < mine.len()
                invariant
                    x <= mine.len(),
                    mine.len() == theirs.len(),
                    mine@ == self@[y as int],
                    theirs@ == other@[y as int],
                    forall|k: int| 0 <= k < x ==> mine[k] == theirs[k],
                decreases mine.len() - x,
            {
                if mine[x] != theirs[x] {
                    assert(self@[y as int][x as int] != other@[y as int][x as int]);
                    return false;
                }
                x = x + 1;
            }
            assert(self@[y as int] =~= other@[y as int]);
            y = y + 1;
        }
        assert(self@ =~= other@);
        true
    }
}

impl vstd::std_specs::cmp::PartialEqSpecImpl for GameOfLife {
    open spec fn obeys_eq_spec() -> bool {
        true
    }

    open spec fn eq_spec(&self, other: &Self) -> bool {
        self.cols() == other.cols() && self@ == other@
    }
}

} // verus!
