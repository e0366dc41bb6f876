use vstd::prelude::*;

use crate::error::GolError;
use crate::game_of_life::{grid_board, rectangular, GameOfLife};
use crate::io::store::ByteStore;
use crate::io::{
    be_u32, cell_byte, cell_offset, check_magic, decode_u32, encoding, file_len, has_magic,
    header_height, header_width, lemma_flatten_rectangular, lemma_round_trip, HEADER_SIZE,
};
use crate::read::{Board, Read};
use crate::utils::{
    neighbor_coordinate, neighbor_coordinates, neighbor_coordinates_of, neighbor_offset,
};

verus! {

/// The window budget, in cells, of a reader made with `GoLFile::new`.
pub const DEFAULT_BUF_SIZE: usize = 3000;

/// What a byte of the cell area stands for in the window. The value `2` is
/// the mark of a slot that holds nothing.
pub open spec fn cell_of_byte(b: u8) -> Option<bool> {
    if b == 2 {
        None
    } else {
        Some(b == 1)
    }
}

/// What the bytes of a store hold for the cell at `(x, y)` of a board
/// `width` wide.
pub open spec fn stored_cell(bytes: Seq<u8>, width: nat, x: int, y: int) -> Option<bool> {
    let at = cell_offset(width, x, y);
    if 0 <= at < bytes.len() {
        cell_of_byte(bytes[at])
    } else {
        None
    }
}

/// The board that the bytes of a store hold.
pub open spec fn stored_board(bytes: Seq<u8>, width: nat, height: nat) -> Board {
    Board {
        width,
        height,
        cells: Seq::new(
            height,
            |y: int| Seq::new(width, |x: int| stored_cell(bytes, width, x, y)),
        ),
    }
}

/// The width and height of the window for a board `width` wide under a
/// budget of `max_capacity` cells: whole rows, as many as fit, if at least
/// three fit; otherwise three rows of a third of the budget each. A board
/// without columns gets three empty rows.
pub open spec fn window_size(width: nat, max_capacity: nat) -> (nat, nat) {
    if width == 0 {
        (0, 3)
    } else if max_capacity / width >= 3 {
        (width, max_capacity / width)
    } else {
        (max_capacity / 3, 3)
    }
}

/// Whether a window `len` long is long enough to hold, together with any
/// position of a board `extent` long, both of its neighbors.
pub open spec fn adequate(len: nat, extent: nat) -> bool {
    len >= 3 || len >= extent
}

/// Whether `v` is the first or the last position of a board `extent` long.
pub open spec fn on_border(v: int, extent: int) -> bool {
    v == 0 || v == extent - 1
}

/// Whether a window that spans `len` positions from `start` holds position
/// `v` of a board `extent` long with what its neighbors need: on the border
/// the window only has to reach `v`; elsewhere it has to reach one position
/// further on both sides.
pub open spec fn span_contains(start: int, len: int, extent: int, v: int) -> bool {
    if on_border(v, extent) {
        start <= v < start + len
    } else {
        start < v < start + len - 1
    }
}

/// A requested window start, moved back so that the window does not reach
/// past the end of the board (but never before its start).
pub open spec fn clamped(v: int, len: int, extent: int) -> int {
    let last = if extent >= len {
        extent - len
    } else {
        0
    };
    if v <= last {
        v
    } else {
        last
    }
}

/// Where a window is anchored when it is reloaded for position `v`: one
/// position before `v`, clamped to the board.
pub open spec fn anchor(v: int, len: int, extent: int) -> int {
    clamped(
        if v >= 1 {
            v - 1
        } else {
            0
        },
        len,
        extent,
    )
}

/// A counter of fetches after `n` more fetches. It stops at the largest
/// `usize`.
pub open spec fn bumped(count: nat, n: nat) -> nat {
    if count + n <= usize::MAX {
        count + n
    } else {
        usize::MAX as nat
    }
}

/// A window that contains a position with its margin, or that was anchored
/// for it, holds every neighbor of the position that lies on the board,
/// provided that the window is long enough for that.
proof fn lemma_span_holds_neighbors(start: int, len: int, extent: int, v: int, d: int)
    requires
        0 <= v,
        0 <= start,
        0 <= len,
        start + len <= extent || start == 0,
        span_contains(start, len, extent, v) || start == anchor(v, len, extent),
        adequate(len as nat, extent as nat),
        -1 <= d <= 1,
        0 <= v + d < extent,
    ensures
        start <= v + d < start + len,
{
}

/// The window for a board `width` wide is wide enough as soon as the budget
/// is nine cells, or holds three whole rows.
pub proof fn lemma_window_adequate(width: nat, max_capacity: nat)
    requires
        max_capacity >= 9 || (width > 0 && max_capacity / width >= 3),
    ensures
        adequate(window_size(width, max_capacity).0, width),
{
}

/// The bytes of a board's file hold the board.
pub proof fn lemma_stored_board_of_encoding(width: nat, rows: Seq<Seq<bool>>)
    requires
        rectangular(width, rows),
        width <= u32::MAX,
        rows.len() <= u32::MAX,
    ensures
        stored_board(encoding(width, rows), width, rows.len()) == grid_board(width, rows),
{
    let bytes = encoding(width, rows);
    let height = rows.len();
    lemma_round_trip(width, rows);
    lemma_flatten_rectangular(width, rows);
    assert forall|y: int, x: int| 0 <= y < height && 0 <= x < width implies stored_cell(
        bytes,
        width,
        x,
        y,
    ) == Some(#[trigger] rows[y][x]) by {
        assert((y + 1) * width <= height * width) by (nonlinear_arith)
            requires
                y + 1 <= height,
                0 <= width,
        ;
        assert((y + 1) * width == y * width + width) by (nonlinear_arith);
        assert(0 <= y * width) by (nonlinear_arith)
            requires
                0 <= y,
                0 <= width,
        ;
        assert(bytes[12 + (y * width + x)] == cell_byte(rows.flatten()[y * width + x]));
    }
    assert(stored_board(bytes, width, height).cells =~~= grid_board(width, rows).cells);
}

/// A reader over the file of a board gives, for every coordinate, the same
/// answers as the board in memory, whatever the size of its window, as long
/// as the store is reliable and the window is wide enough to hold a cell
/// together with its neighbors.
pub proof fn lemma_reader_matches_grid<R: ByteStore>(
    file: GoLFile<R>,
    grid: GameOfLife,
    x: usize,
    y: usize,
)
    requires
        file.valid(),
        grid.valid(),
        rectangular(grid.cols(), grid@),
        grid.cols() <= u32::MAX,
        grid@.len() <= u32::MAX,
        file.store().reliable(),
        file.store().bytes() == encoding(grid.cols(), grid@),
        adequate(file.window_width(), file.cols()) || file.rows() == 0,
    ensures
        file.reliable(),
        file.board() == grid.board(),
        file.cell_answer(x, y) == grid.board().read_cell(x, y),
        file.neighbors_answer(x, y) == Ok::<Seq<Option<bool>>, GolError>(
            grid.board().neighbors(x, y),
        ),
{
    file.lemma_dimensions();
    lemma_round_trip(grid.cols(), grid@);
    lemma_stored_board_of_encoding(grid.cols(), grid@);
    file.lemma_reliable_is_exact(x, y);
}

/// A memory-efficient way to read and interact with a Game Of Life file
/// kept in a byte store. Similar to a buffered reader, the struct keeps a
/// window of the board in memory to limit the number of fetches from the
/// store while avoiding bringing the entire file into memory.
#[derive(Debug)]
pub struct GoLFile<R> {
    inner: R,
    cursor: Option<(usize, usize)>,
    buffer: Vec<Vec<Option<bool>>>,
    width: usize,
    height: usize,
    file_read_count: usize,
    temp: Vec<u8>,
}

/// A row of `n` empty slots.
fn blank_row(n: usize) -> (row: Vec<Option<bool>>)
    ensures
        row.len() == n,
        forall|i: int| 0 <= i < n ==> (#[trigger] row[i]) is None,
{
    let mut row: Vec<Option<bool>> = Vec::new();
    let mut i: usize = 0;
    while i < n
        invariant
            i <= n,
            row.len() == i,
            forall|k: int| 0 <= k < i ==> (#[trigger] row[k]) is None,
        decreases n - i,
    {
        row.push(None);
        i = i + 1;
    }
    row
}

impl<R: ByteStore> GoLFile<R> {
    /// The store that the reader reads from.
    pub closed spec fn store(&self) -> R {
        self.inner
    }

    /// The width of the board, as the header gave it.
    pub closed spec fn cols(&self) -> nat {
        self.width as nat
    }

    /// The height of the board, as the header gave it.
    pub closed spec fn rows(&self) -> nat {
        self.height as nat
    }

    /// The width of the window.
    pub closed spec fn window_width(&self) -> nat {
        self.temp.len() as nat
    }

    /// The height of the window.
    pub closed spec fn window_height(&self) -> nat {
        self.buffer.len() as nat
    }

    /// The board coordinate of the window's top-left corner, once the window
    /// holds a part of the board.
    pub closed spec fn window(&self) -> Option<(usize, usize)> {
        self.cursor
    }

    /// How many row segments have been fetched from the store.
    pub closed spec fn fetched(&self) -> nat {
        self.file_read_count as nat
    }

    /// The board held by the store.
    pub open spec fn stored(&self) -> Board {
        stored_board(self.store().bytes(), self.cols(), self.rows())
    }

    /// Whether the store holds all the cells of the board.
    pub open spec fn complete(&self) -> bool {
        self.store().bytes().len() >= file_len(self.cols(), self.rows())
    }

    /// Whether a window anchored at `(cx, cy)` lies on the board: it does
    /// not reach past the last column, and reaches past the last row only
    /// if it starts at the first.
    spec fn anchored(&self, cx: int, cy: int) -> bool {
        &&& 0 <= cx && cx + self.temp.len() <= self.width
        &&& 0 <= cy && (cy + self.buffer.len() <= self.height || cy == 0)
    }

    /// Whether the slots of row `by` of the window hold what the board holds
    /// in row `y` from column `x` on.
    spec fn row_mirrors(&self, by: int, x: int, y: int) -> bool {
        forall|bx: int|
            0 <= bx < self.temp.len() ==> #[trigger] self.buffer[by][bx] == self.stored().cell(
                x + bx,
                y,
            )
    }

    /// Whether the slots of a window anchored at `(cx, cy)` hold what the
    /// board holds there, and nothing where the window reaches past the
    /// board's last row.
    spec fn mirrors(&self, cx: int, cy: int) -> bool {
        forall|by: int, bx: int|
            0 <= by < self.buffer.len() && 0 <= bx < self.temp.len()
                ==> #[trigger] self.buffer[by][bx] == self.stored().cell(cx + bx, cy + by)
    }

    /// The reader's state is valid: the window has its shape and lies on
    /// the board, and over a reliable store the board's size is the one in
    /// the header and the window, once anchored, mirrors the store.
    pub closed spec fn valid(&self) -> bool {
        &&& self.width <= u32::MAX
        &&& self.height <= u32::MAX
        &&& self.buffer.len() >= 3
        &&& self.temp.len() <= self.width
        &&& forall|i: int|
            0 <= i < self.buffer.len() ==> (#[trigger] self.buffer[i]).len() == self.temp.len()
        &&& self.inner.reliable() ==> {
            &&& self.inner.bytes().len() >= HEADER_SIZE
            &&& has_magic(self.inner.bytes())
            &&& self.width == header_width(self.inner.bytes())
            &&& self.height == header_height(self.inner.bytes())
        }
        &&& match self.cursor {
            Some((cx, cy)) => {
                &&& self.anchored(cx as int, cy as int)
                &&& self.inner.reliable() ==> self.mirrors(cx as int, cy as int)
            },
            None => true,
        }
    }

    /// Whether the window holds the cell at `(x, y)` with the margin that
    /// its neighbors need.
    pub open spec fn contains(&self, x: usize, y: usize) -> bool {
        match self.window() {
            Some((cx, cy)) => {
                &&& span_contains(
                    cx as int,
                    self.window_width() as int,
                    self.cols() as int,
                    x as int,
                )
                &&& span_contains(
                    cy as int,
                    self.window_height() as int,
                    self.rows() as int,
                    y as int,
                )
            },
            None => false,
        }
    }

    /// The anchor of the window once the cell at `(x, y)` has been resolved:
    /// the window stays where it is if it contains the cell, and is
    /// reloaded one row and one column before the cell if not.
    pub open spec fn window_for(&self, x: usize, y: usize) -> (usize, usize) {
        if self.contains(x, y) {
            self.window().unwrap()
        } else {
            (
                anchor(x as int, self.window_width() as int, self.cols() as int) as usize,
                anchor(y as int, self.window_height() as int, self.rows() as int) as usize,
            )
        }
    }

    /// How many rows of the board a window anchored at row `cy` holds.
    pub open spec fn rows_held(&self, cy: int) -> nat {
        if cy + self.window_height() <= self.rows() {
            self.window_height()
        } else if cy <= self.rows() {
            (self.rows() - cy) as nat
        } else {
            0
        }
    }

    /// Whether the store holds every row segment of a window anchored at
    /// `(cx, cy)`.
    pub open spec fn fetchable(&self, cx: int, cy: int) -> bool {
        forall|i: int|
            0 <= i < self.rows_held(cy) ==> #[trigger] cell_offset(self.cols(), cx, cy + i)
                + self.window_width() <= self.store().bytes().len()
    }

    /// Whether the window can be brought to hold the cell at `(x, y)`: it
    /// contains the cell already, or the store holds what a reload needs.
    pub open spec fn reachable(&self, x: usize, y: usize) -> bool {
        self.contains(x, y) || self.fetchable(
            self.window_for(x, y).0 as int,
            self.window_for(x, y).1 as int,
        )
    }

    /// The anchor of the window after the cell at `(x, y)` was asked for
    /// over a reliable store: none if the reload failed.
    pub open spec fn window_after(&self, x: usize, y: usize) -> Option<(usize, usize)> {
        if self.reachable(x, y) {
            Some(self.window_for(x, y))
        } else {
            None
        }
    }

    /// What the window, anchored at `cursor`, gives for the `i`-th neighbor
    /// of `(x, y)`: what the board holds there if the neighbor lies inside
    /// the window, and nothing if not.
    pub open spec fn window_neighbor(
        &self,
        cursor: (usize, usize),
        x: usize,
        y: usize,
        i: int,
    ) -> Option<bool> {
        let nx = x + neighbor_offset(i).0;
        let ny = y + neighbor_offset(i).1;
        if cursor.0 <= nx < cursor.0 + self.window_width() && cursor.1 <= ny < cursor.1
            + self.window_height() {
            self.stored().cell(nx, ny)
        } else {
            None
        }
    }

    /// What the window gives for the cell at `(x, y)` once it was resolved
    /// for it: the board's answer, unless the window is too narrow to reach
    /// the cell.
    pub open spec fn resolved_cell(&self, x: usize, y: usize) -> Result<bool, GolError> {
        if x < self.window_for(x, y).0 + self.window_width() {
            self.stored().read_cell(x, y)
        } else {
            Err(GolError::OutOfRange)
        }
    }

    /// What the window gives for the neighbors of `(x, y)` once it was
    /// resolved for `(x, y)`.
    pub open spec fn resolved_neighbors(&self, x: usize, y: usize) -> Seq<Option<bool>> {
        Seq::new(8, |i: int| self.window_neighbor(self.window_for(x, y), x, y, i))
    }

    /// What reading the cell at `(x, y)` gives over a reliable store. A
    /// coordinate off the board is refused; a window that cannot be
    /// reloaded is an `IoFailure`; otherwise the window answers.
    pub open spec fn cell_answer(&self, x: usize, y: usize) -> Result<bool, GolError> {
        if !self.stored().in_range(x as int, y as int) {
            Err(GolError::OutOfRange)
        } else if !self.reachable(x, y) {
            Err(GolError::IoFailure)
        } else {
            self.resolved_cell(x, y)
        }
    }

    /// What reading the neighbors of `(x, y)` gives over a reliable store.
    pub open spec fn neighbors_answer(&self, x: usize, y: usize) -> Result<
        Seq<Option<bool>>,
        GolError,
    > {
        if !self.reachable(x, y) {
            Err(GolError::IoFailure)
        } else {
            Ok(self.resolved_neighbors(x, y))
        }
    }

    /// Whether `other` reads the same store and board through a window of
    /// the same size.
    pub open spec fn same_file(&self, other: &Self) -> bool {
        &&& self.store().bytes() == other.store().bytes()
        &&& self.store().reliable() == other.store().reliable()
        &&& self.cols() == other.cols()
        &&& self.rows() == other.rows()
        &&& self.window_width() == other.window_width()
        &&& self.window_height() == other.window_height()
    }

    /// The board's size fits in 32 bits, the window is at least three rows
    /// high and at most as wide as the board, and over a reliable store the
    /// size is the one that the header declares.
    pub proof fn lemma_dimensions(&self)
        requires
            self.valid(),
        ensures
            self.cols() <= u32::MAX,
            self.rows() <= u32::MAX,
            self.window_width() <= self.cols(),
            self.window_height() >= 3,
            self.store().reliable() ==> {
                &&& self.store().bytes().len() >= HEADER_SIZE
                &&& has_magic(self.store().bytes())
                &&& self.cols() == header_width(self.store().bytes())
                &&& self.rows() == header_height(self.store().bytes())
            },
    {
    }

    /// With a window that is wide enough, or on a board without rows, what
    /// the window gives for a cell and for its neighbors is what the board
    /// holds.
    pub proof fn lemma_resolved_is_exact(&self, x: usize, y: usize)
        requires
            self.valid(),
            adequate(self.window_width(), self.cols()) || self.rows() == 0,
        ensures
            self.resolved_cell(x, y) == self.stored().read_cell(x, y),
            self.resolved_neighbors(x, y) == self.stored().neighbors(x, y),
    {
        let cursor = self.window_for(x, y);
        let ww = self.window_width() as int;
        let wh = self.window_height() as int;
        let w = self.cols() as int;
        let h = self.rows() as int;
        if self.stored().in_range(x as int, y as int) {
            lemma_span_holds_neighbors(cursor.0 as int, ww, w, x as int, 0);
        }
        assert forall|i: int| 0 <= i < 8 implies #[trigger] self.resolved_neighbors(x, y)[i]
            == self.stored().neighbors(x, y)[i] by {
            let dx = neighbor_offset(i).0;
            let dy = neighbor_offset(i).1;
            if self.stored().in_range(x + dx, y + dy) {
                lemma_span_holds_neighbors(cursor.0 as int, ww, w, x as int, dx);
                lemma_span_holds_neighbors(cursor.1 as int, wh, h, y as int, dy);
            }
        }
        assert(self.resolved_neighbors(x, y) =~= self.stored().neighbors(x, y));
    }

    /// A store that holds all the cells of the board holds every row
    /// segment of every window that lies on the board.
    pub proof fn lemma_complete_is_fetchable(&self, cx: int, cy: int)
        requires
            self.complete(),
            0 <= cx,
            0 <= cy,
            cx + self.window_width() <= self.cols(),
        ensures
            self.fetchable(cx, cy),
    {
        let w = self.cols() as int;
        let h = self.rows() as int;
        assert forall|i: int| 0 <= i < self.rows_held(cy) implies #[trigger] cell_offset(
            self.cols(),
            cx,
            cy + i,
        ) + self.window_width() <= self.store().bytes().len() by {
            assert((cy + i + 1) * w <= h * w) by (nonlinear_arith)
                requires
                    cy + i + 1 <= h,
                    0 <= w,
            ;
            assert((cy + i + 1) * w == (cy + i) * w + w) by (nonlinear_arith);
        }
    }

    /// A reliable reader answers every read as the board has it.
    pub proof fn lemma_reliable_is_exact(&self, x: usize, y: usize)
        requires
            self.valid(),
            self.reliable(),
        ensures
            self.reachable(x, y),
            self.cell_answer(x, y) == self.stored().read_cell(x, y),
            self.neighbors_answer(x, y) == Ok::<Seq<Option<bool>>, GolError>(
                self.stored().neighbors(x, y),
            ),
    {
        self.lemma_resolved_is_exact(x, y);
        let cursor = self.window_for(x, y);
        assert(self.contains(x, y) ==> self.anchored(cursor.0 as int, cursor.1 as int));
        self.lemma_complete_is_fetchable(cursor.0 as int, cursor.1 as int);
    }

    /// What opening a reader over `inner` with a budget of `max_capacity`
    /// cells may give.
    ///
    /// Over a reliable store the reader is made exactly when the store holds
    /// the twelve bytes of a header and they begin with the marker; a header
    /// without the marker is refused with `InvalidFormat`, a store that is
    /// shorter than a header with `IoFailure`. The board then has the size
    /// that the header declares. Over any store those two are the only
    /// errors, and a reader that is made has a window of the size that
    /// `window_size` gives for the board's width, not yet anchored.
    pub open spec fn opened(inner: R, max_capacity: usize, r: Result<Self, GolError>) -> bool {
        let bytes = inner.bytes();
        match r {
            Ok(file) => {
                &&& file.valid()
                &&& file.store().bytes() == bytes
                &&& file.store().reliable() == inner.reliable()
                &&& (file.window_width(), file.window_height()) == window_size(
                    file.cols(),
                    max_capacity as nat,
                )
                &&& file.window() is None
                &&& file.fetched() == 0
                &&& inner.reliable() ==> {
                    &&& bytes.len() >= HEADER_SIZE
                    &&& has_magic(bytes)
                    &&& file.cols() == header_width(bytes)
                    &&& file.rows() == header_height(bytes)
                }
            },
            Err(GolError::InvalidFormat) => inner.reliable() ==> bytes.len() >= HEADER_SIZE
                && !has_magic(bytes),
            Err(GolError::IoFailure) => inner.reliable() ==> bytes.len() < HEADER_SIZE,
            Err(_) => false,
        }
    }

    /// Creates a new reader over a store. Defaults to a window budget of
    /// 3000 cells. Actual size depends on the width of the board.
    pub fn new(inner: R) -> (r: Result<Self, GolError>)
        ensures
            Self::opened(inner, DEFAULT_BUF_SIZE, r),
    {
        Self::with_max_capacity(inner, DEFAULT_BUF_SIZE)
    }

    /// Creates a new reader over a store, capping the window to the provided
    /// number of cells. Actual size of the window will depend on the width
    /// of the board.
    pub fn with_max_capacity(inner: R, max_capacity: usize) -> (r: Result<Self, GolError>)
        ensures
            Self::opened(inner, max_capacity, r),
    {
        let mut inner = inner;
        let mut header: Vec<u8> = Vec::new();
        let mut k: usize = 0;
        while k < HEADER_SIZE
            invariant
                k <= HEADER_SIZE,
                header.len() == k,
            decreases HEADER_SIZE - k,
        {
            header.push(0);
            k = k + 1;
        }
        if !inner.read_at(0, header.as_mut_slice()) {
            return Err(GolError::IoFailure);
        }
        let ghost bytes = inner.bytes();
        proof {
            if inner.reliable() {
                assert(forall|i: int| 0 <= i < 12 ==> header[i] == bytes[0 + i]);
            }
        }
        if !check_magic(header.as_slice()) {
            return Err(GolError::InvalidFormat);
        }
        let width = decode_u32(header.as_slice(), 4) as usize;
        let height = decode_u32(header.as_slice(), 8) as usize;
        let (b_width, b_height) = if width == 0 {
            (0, 3)
        } else if max_capacity / width >= 3 {
            (width, max_capacity / width)
        } else {
            (max_capacity / 3, 3)
        };
        proof {
            if width != 0 && max_capacity / width < 3 {
                assert(max_capacity / 3 <= width) by (nonlinear_arith)
                    requires
                        width > 0,
                        max_capacity / width < 3,
                ;
            }
        }
        let mut buffer: Vec<Vec<Option<bool>>> = Vec::new();
        let mut i: usize = 0;
        while i < b_height
            invariant
                i <= b_height,
                buffer.len() == i,
                forall|k: int| 0 <= k < i ==> (#[trigger] buffer[k]).len() == b_width,
            decreases b_height - i,
        {
            buffer.push(blank_row(b_width));
            i = i + 1;
        }
        let mut temp: Vec<u8> = Vec::new();
        let mut j: usize = 0;
        while j < b_width
            invariant
                j <= b_width,
                temp.len() == j,
            decreases b_width - j,
        {
            temp.push(2);
            j = j + 1;
        }
        Ok(GoLFile { inner, cursor: None, buffer, width, height, file_read_count: 0, temp })
    }

    /// How many row segments have been fetched from the store so far.
    pub fn read_count(&self) -> (r: usize)
        ensures
            r == self.fetched(),
    {
        self.file_read_count
    }

    /// Turns the reader into an iterator over the cells of the board, row by
    /// row.
    pub fn into_iter(self) -> (r: IntoIter<R>)
        ensures
            r.file() == self,
            r.position() == (0usize, 0usize),
    {
        IntoIter { inner: self, x: 0, y: 0 }
    }

    /// Where in the store the cell at `(x, y)` stands.
    fn compute_index(&self, x: usize, y: usize) -> (at: u64)
        requires
            self.valid(),
            x <= self.width,
            y <= self.height,
        ensures
            at == cell_offset(self.cols(), x as int, y as int),
    {
        assert(y * self.width <= 0xffff_ffff * 0xffff_ffff) by (nonlinear_arith)
            requires
                0 <= y <= 0xffff_ffff,
                0 <= self.width <= 0xffff_ffff,
        ;
        (y as u64) * (self.width as u64) + (x as u64) + (HEADER_SIZE as u64)
    }

    /// Whether the window holds the cell at `(x, y)` together with the
    /// margin that its neighbors need.
    fn buffer_contains(&self, x: usize, y: usize) -> (r: bool)
        requires
            self.valid(),
        ensures
            r == self.contains(x, y),
    {
        if let Some((c_x, c_y)) = self.cursor {
            let b_width = self.buffer[0].len();
            let b_height = self.buffer.len();
            let x_in_buffer = {
                if x == 0 || (self.width > 0 && x == self.width - 1) {
                    c_x <= x && x - c_x < b_width
                } else {
                    c_x < x && b_width > 0 && x - c_x < b_width - 1
                }
            };
            let y_in_buffer = {
                if y == 0 || (self.height > 0 && y == self.height - 1) {
                    c_y <= y && y - c_y < b_height
                } else {
                    c_y < y && y - c_y < b_height - 1
                }
            };
            x_in_buffer && y_in_buffer
        } else {
            false
        }
    }

    /// Fetches the part of row `y` of the board that starts at column `x`
    /// into row `buf_index` of the window. Over a reliable store the fetch
    /// succeeds exactly when the store holds the segment.
    fn read_row(&mut self, x: usize, y: usize, buf_index: usize) -> (ok: bool)
        requires
            old(self).valid(),
            old(self).window() is None,
            x + old(self).window_width() <= old(self).cols(),
            y < old(self).rows(),
            buf_index < old(self).window_height(),
        ensures
            final(self).valid(),
            final(self).window() is None,
            final(self).same_file(old(self)),
            final(self).buffer.len() == old(self).buffer.len(),
            forall|k: int|
                0 <= k < final(self).buffer.len() && k != buf_index
                    ==> #[trigger] final(self).buffer[k] == old(self).buffer[k],
            old(self).store().reliable() ==> (ok <==> cell_offset(
                old(self).cols(),
                x as int,
                y as int,
            ) + old(self).window_width() <= old(self).store().bytes().len()),
            old(self).store().reliable() && ok ==> final(self).row_mirrors(
                buf_index as int,
                x as int,
                y as int,
            ),
            ok ==> final(self).fetched() == bumped(old(self).fetched(), 1),
            !ok ==> final(self).fetched() == old(self).fetched(),
    {
        let end = if self.width - x <= self.buffer[0].len() {
            self.width - x
        } else {
            self.buffer[0].len()
        };
        let at = self.compute_index(x, y);
        let mut k: usize = 0;
        while k < self.temp.len()
            invariant
                self.temp.len() == old(self).temp.len(),
                self.inner == old(self).inner,
                self.buffer == old(self).buffer,
                self.width == old(self).width,
                self.height == old(self).height,
                self.cursor == old(self).cursor,
                self.file_read_count == old(self).file_read_count,
            decreases self.temp.len() - k,
        {
            self.temp[k] = 2;
            k = k + 1;
        }
        if !self.inner.read_at(at, self.temp.as_mut_slice()) {
            return false;
        }
        let ghost bytes = self.inner.bytes();
        let ghost reliable = self.inner.reliable();
        let mut i: usize = 0;
        while i < end
            invariant
                i <= end,
                end == self.temp.len(),
                buf_index < self.buffer.len(),
                self.buffer.len() == old(self).buffer.len(),
                forall|k: int|
                    0 <= k < self.buffer.len() ==> (#[trigger] self.buffer[k]).len()
                        == self.temp.len(),
                forall|k: int|
                    0 <= k < self.buffer.len() && k != buf_index ==> #[trigger] self.buffer[k]
                        == old(self).buffer[k],
                forall|bx: int|
                    0 <= bx < i ==> #[trigger] self.buffer[buf_index as int][bx] == cell_of_byte(
                        self.temp[bx],
                    ),
                self.temp.len() == old(self).temp.len(),
                self.width == old(self).width,
                self.height == old(self).height,
                self.cursor == old(self).cursor,
                self.file_read_count == old(self).file_read_count,
                self.inner.bytes() == bytes,
                self.inner.reliable() == reliable,
                reliable ==> forall|bx: int|
                    0 <= bx < end ==> #[trigger] self.temp[bx] == bytes[at + bx],
            decreases end - i,
        {
            self.buffer[buf_index][i] = if self.temp[i] == 2 {
                None
            } else {
                Some(self.temp[i] == 1)
            };
            i = i + 1;
        }
        if self.file_read_count < usize::MAX {
            self.file_read_count = self.file_read_count + 1;
        }
        proof {
            if reliable {
                let row = self.buffer[buf_index as int];
                assert forall|bx: int| 0 <= bx < self.temp.len() implies #[trigger] row[bx]
                    == self.stored().cell(x + bx, y as int) by {
                    assert(self.temp[bx] == bytes[at + bx]);
                    assert(cell_offset(self.cols(), x + bx, y as int) == at + bx);
                }
            }
        }
        true
    }

    /// Reloads the window so that it starts at `(x, y)`, or as near to it as
    /// the board allows. Every slot is emptied first; then the rows of the
    /// board that the window holds are fetched, one fetch each. If a fetch
    /// fails the window is left without an anchor.
    fn load_buffer(&mut self, x: usize, y: usize) -> (ok: bool)
        requires
            old(self).valid(),
        ensures
            final(self).valid(),
            final(self).same_file(old(self)),
            ok ==> final(self).window() == Some(
                (
                    clamped(
                        x as int,
                        old(self).window_width() as int,
                        old(self).cols() as int,
                    ) as usize,
                    clamped(
                        y as int,
                        old(self).window_height() as int,
                        old(self).rows() as int,
                    ) as usize,
                ),
            ),
            ok ==> final(self).fetched() == bumped(
                old(self).fetched(),
                old(self).rows_held(
                    clamped(y as int, old(self).window_height() as int, old(self).rows() as int),
                ),
            ),
            !ok ==> final(self).window() is None,
            !ok ==> old(self).fetched() <= final(self).fetched(),
            old(self).store().reliable() ==> (ok <==> old(self).fetchable(
                clamped(x as int, old(self).window_width() as int, old(self).cols() as int),
                clamped(y as int, old(self).window_height() as int, old(self).rows() as int),
            )),
    {
        let x_last = self.width.saturating_sub(self.buffer[0].len());
        let y_last = self.height.saturating_sub(self.buffer.len());
        let c_x = if x <= x_last {
            x
        } else {
            x_last
        };
        let c_y = if y <= y_last {
            y
        } else {
            y_last
        };
        assert(c_x == clamped(
            x as int,
            old(self).window_width() as int,
            old(self).cols() as int,
        ));
        assert(c_y == clamped(
            y as int,
            old(self).window_height() as int,
            old(self).rows() as int,
        ));
        self.cursor = None;
        let mut i: usize = 0;
        while i < self.buffer.len()
            invariant
                self.valid(),
                self.cursor is None,
                self.same_file(old(self)),
                self.file_read_count == old(self).file_read_count,
                i <= self.buffer.len(),
                forall|k: int, bx: int|
                    0 <= k < i && 0 <= bx < self.temp.len() ==> (#[trigger] self.buffer[k][bx])
                        is None,
            decreases self.buffer.len() - i,
        {
            let mut j: usize = 0;
            while j < self.buffer[i].len()
                invariant
                    self.valid(),
                    self.cursor is None,
                    self.same_file(old(self)),
                    self.file_read_count == old(self).file_read_count,
                    i < self.buffer.len(),
                    j <= self.buffer[i as int].len(),
                    forall|k: int, bx: int|
                        0 <= k < i && 0 <= bx < self.temp.len() ==> (
                        #[trigger] self.buffer[k][bx]) is None,
                    forall|bx: int| 0 <= bx < j ==> (#[trigger] self.buffer[i as int][bx]) is None,
                decreases self.buffer[i as int].len() - j,
            {
                self.buffer[i][j] = None;
                j = j + 1;
            }
            i = i + 1;
        }
        let ghost reliable = self.inner.reliable();
        let mut i: usize = 0;
        while i < self.buffer.len() && c_y + i < self.height
            invariant
                self.valid(),
                self.cursor is None,
                self.same_file(old(self)),
                reliable == self.inner.reliable(),
                i <= self.buffer.len(),
                c_x == clamped(
                    x as int,
                    old(self).window_width() as int,
                    old(self).cols() as int,
                ),
                c_y == clamped(
                    y as int,
                    old(self).window_height() as int,
                    old(self).rows() as int,
                ),
                c_x + self.temp.len() <= self.width,
                c_y + self.buffer.len() <= self.height || c_y == 0,
                i == 0 || c_y + i <= self.height,
                self.file_read_count == bumped(old(self).file_read_count as nat, i as nat),
                reliable ==> forall|k: int|
                    0 <= k < i ==> #[trigger] cell_offset(self.cols(), c_x as int, c_y + k)
                        + self.window_width() <= self.inner.bytes().len(),
                reliable ==> forall|k: int, bx: int|
                    0 <= k < i && 0 <= bx < self.temp.len() ==> #[trigger] self.buffer[k][bx]
                        == self.stored().cell(c_x + bx, c_y + k),
                forall|k: int, bx: int|
                    i <= k < self.buffer.len() && 0 <= bx < self.temp.len() ==> (
                    #[trigger] self.buffer[k][bx]) is None,
            decreases self.buffer.len() - i,
        {
            let ghost before = self.buffer;
            if !self.read_row(c_x, c_y + i, i) {
                proof {
                    if reliable {
                        let at = cell_offset(old(self).cols(), c_x as int, c_y + i);
                        assert(0 <= i < old(self).rows_held(c_y as int));
                        assert(at + old(self).window_width() > old(self).store().bytes().len());
                        assert(!old(self).fetchable(c_x as int, c_y as int));
                    }
                }
                return false;
            }
            proof {
                if reliable {
                    assert forall|k: int, bx: int|
                        0 <= k < i + 1 && 0 <= bx < self.temp.len()
                        implies #[trigger] self.buffer[k][bx] == self.stored().cell(
                        c_x + bx,
                        c_y + k,
                    ) by {
                        if k < i {
                            assert(self.buffer[k] == before[k]);
                            assert(before[k][bx] == self.stored().cell(c_x + bx, c_y + k));
                        }
                    }
                }
                assert forall|k: int, bx: int|
                    i + 1 <= k < self.buffer.len() && 0 <= bx < self.temp.len() implies (
                #[trigger] self.buffer[k][bx]) is None by {
                    assert(self.buffer[k] == before[k]);
                    assert(before[k][bx] is None);
                }
            }
            i = i + 1;
        }
        self.cursor = Some((c_x, c_y));
        proof {
            assert(i == old(self).rows_held(c_y as int));
            if reliable {
                assert forall|by: int, bx: int|
                    0 <= by < self.buffer.len() && 0 <= bx < self.temp.len()
                    implies #[trigger] self.buffer[by][bx] == self.stored().cell(
                    c_x + bx,
                    c_y + by,
                ) by {
                    if by >= i {
                        assert(self.buffer[by][bx] is None);
                    }
                }
            }
        }
        true
    }

    /// Makes sure that the window holds the cell at `(x, y)` with its margin,
    /// reloading it if not, and gives the cell's place in the window.
    fn get_buffer_coordinates(&mut self, x: usize, y: usize) -> (r: Result<
        (usize, usize),
        GolError,
    >)
        requires
            old(self).valid(),
        ensures
            final(self).valid(),
            final(self).same_file(old(self)),
            old(self).contains(x, y) ==> final(self).fetched() == old(self).fetched() && r is Ok,
            old(self).store().reliable() ==> (r is Ok <==> old(self).reachable(x, y)),
            match r {
                Ok((b_x, b_y)) => {
                    &&& final(self).window() == Some(old(self).window_for(x, y))
                    &&& old(self).window_for(x, y).0 <= x
                    &&& old(self).window_for(x, y).1 <= y
                    &&& b_x == x - old(self).window_for(x, y).0
                    &&& b_y == y - old(self).window_for(x, y).1
                    &&& !old(self).contains(x, y) ==> final(self).fetched() == bumped(
                        old(self).fetched(),
                        old(self).rows_held(old(self).window_for(x, y).1 as int),
                    )
                },
                Err(e) => {
                    &&& e == GolError::IoFailure
                    &&& final(self).window() is None
                    &&& old(self).fetched() <= final(self).fetched()
                },
            },
    {
        if !self.buffer_contains(x, y) {
            if !self.load_buffer(x.saturating_sub(1), y.saturating_sub(1)) {
                return Err(GolError::IoFailure);
            }
        }
        match self.cursor {
            Some((c_x, c_y)) => Ok((x - c_x, y - c_y)),
            None => Err(GolError::IoFailure),
        }
    }
}

impl<R: ByteStore> Read for GoLFile<R> {
    open spec fn inv(&self) -> bool {
        self.valid()
    }

    open spec fn board(&self) -> Board {
        self.stored()
    }

    /// The reader answers exactly as the board has it when the store is
    /// reliable and holds the whole board, and the window is wide enough to
    /// hold a cell together with its neighbors.
    open spec fn reliable(&self) -> bool {
        &&& self.store().reliable()
        &&& self.complete()
        &&& (adequate(self.window_width(), self.cols()) || self.rows() == 0)
    }

    /// Reads the cell at the coordinates provided, through the window. A
    /// coordinate off the board is refused before anything is fetched. Over
    /// a reliable store the result is `cell_answer`, and the window ends up
    /// where `window_after` says.
    fn read_cell(&mut self, x: usize, y: usize) -> (r: Result<bool, GolError>)
        ensures
            final(self).same_file(old(self)),
            old(self).store().reliable() ==> r == old(self).cell_answer(x, y),
            final(self).window() == (if !old(self).stored().in_range(x as int, y as int) {
                old(self).window()
            } else if r == Err::<bool, GolError>(GolError::IoFailure) {
                None
            } else {
                Some(old(self).window_for(x, y))
            }),
            old(self).fetched() <= final(self).fetched(),
            !old(self).stored().in_range(x as int, y as int) || old(self).contains(x, y)
                ==> final(self).fetched() == old(self).fetched(),
            r is Ok && !old(self).contains(x, y) ==> final(self).fetched() == bumped(
                old(self).fetched(),
                old(self).rows_held(old(self).window_for(x, y).1 as int),
            ),
    {
        if x >= self.width || y >= self.height {
            return Err(GolError::OutOfRange);
        }
        proof {
            if self.reliable() {
                self.lemma_reliable_is_exact(x, y);
            }
        }
        let (b_x, b_y) = match self.get_buffer_coordinates(x, y) {
            Ok(place) => place,
            Err(e) => {
                return Err(e);
            },
        };
        if b_y < self.buffer.len() && b_x < self.buffer[b_y].len() {
            match self.buffer[b_y][b_x] {
                Some(value) => Ok(value),
                None => Err(GolError::CorruptData),
            }
        } else {
            Err(GolError::OutOfRange)
        }
    }

    /// Reads all eight surrounding cells through the window, clockwise from
    /// the north-west. The only error is `IoFailure`, for a window that
    /// could not be reloaded. Over a reliable store the result is
    /// `neighbors_answer`.
    fn read_neighbors(&mut self, x: usize, y: usize) -> (r: Result<[Option<bool>; 8], GolError>)
        ensures
            final(self).same_file(old(self)),
            match r {
                Ok(found) => {
                    &&& final(self).window() == Some(old(self).window_for(x, y))
                    &&& old(self).store().reliable() ==> old(self).neighbors_answer(x, y) == Ok::<
                        Seq<Option<bool>>,
                        GolError,
                    >(found@)
                    &&& !old(self).contains(x, y) ==> final(self).fetched() == bumped(
                        old(self).fetched(),
                        old(self).rows_held(old(self).window_for(x, y).1 as int),
                    )
                },
                Err(e) => {
                    &&& e == GolError::IoFailure
                    &&& final(self).window() is None
                    &&& !old(self).contains(x, y)
                    &&& old(self).store().reliable() ==> old(self).neighbors_answer(x, y) is Err
                },
            },
            old(self).fetched() <= final(self).fetched(),
            old(self).contains(x, y) ==> final(self).fetched() == old(self).fetched(),
    {
        proof {
            if self.reliable() {
                self.lemma_reliable_is_exact(x, y);
            }
        }
        let ghost cursor = self.window_for(x, y);
        let (b_x, b_y) = match self.get_buffer_coordinates(x, y) {
            Ok(place) => place,
            Err(e) => {
                return Err(e);
            },
        };
        let coordinates = neighbor_coordinates(b_x, b_y);
        let mut found: [Option<bool>; 8] = [None;8];
        let mut i: usize = 0;
        while i < 8
            invariant
                i <= 8,
                self.valid(),
                self.window() == Some(cursor),
                cursor.0 <= x,
                cursor.1 <= y,
                b_x == x - cursor.0,
                b_y == y - cursor.1,
                coordinates@ == neighbor_coordinates_of(b_x, b_y),
                self.inner.reliable() ==> forall|k: int|
                    0 <= k < i ==> #[trigger] found[k] == self.window_neighbor(cursor, x, y, k),
            decreases 8 - i,
        {
            let slot = match coordinates[i] {
                Some((n_x, n_y)) => {
                    if n_y < self.buffer.len() && n_x < self.buffer[n_y].len() {
                        self.buffer[n_y][n_x]
                    } else {
                        None
                    }
                },
                None => None,
            };
            proof {
                assert(coordinates[i as int] == neighbor_coordinate(b_x, b_y, i as int));
            }
            found[i] = slot;
            i = i + 1;
        }
        proof {
            if self.inner.reliable() {
                assert(found@ =~= old(self).resolved_neighbors(x, y));
            }
        }
        Ok(found)
    }

    fn width(&self) -> (r: usize) {
        self.width
    }

    fn height(&self) -> (r: usize) {
        self.height
    }
}

/// An iterator over the board.
pub struct IntoIter<R> {
    inner: GoLFile<R>,
    x: usize,
    y: usize,
}

impl<R: ByteStore> IntoIter<R> {
    /// The reader that the iterator draws from.
    pub closed spec fn file(&self) -> GoLFile<R> {
        self.inner
    }

    /// The coordinate of the cell that comes next.
    pub closed spec fn position(&self) -> (usize, usize) {
        (self.x, self.y)
    }

    /// What comes next over a reliable store: nothing after the last row,
    /// and else the cell at the position if it can be read.
    pub open spec fn owed(&self) -> Option<bool> {
        let (x, y) = self.position();
        if y == self.file().rows() {
            None
        } else {
            match self.file().cell_answer(x, y) {
                Ok(cell) => Some(cell),
                Err(_) => None,
            }
        }
    }

    /// Reads the next cell of the board, row by row. The iterator ends after
    /// the last row, and stands still as soon as a cell cannot be read. Over
    /// a reliable store the result is `owed`.
    pub fn next(&mut self) -> (r: Option<bool>)
        requires
            old(self).file().valid(),
        ensures
            final(self).file().valid(),
            final(self).file().same_file(&old(self).file()),
            old(self).position().1 == old(self).file().rows() ==> r is None && final(self).file()
                == old(self).file(),
            old(self).file().store().reliable() ==> r == old(self).owed(),
            r is None ==> final(self).position() == old(self).position(),
            r is Some ==> {
                let (x, y) = old(self).position();
                &&& old(self).file().stored().in_range(x as int, y as int)
                &&& final(self).position().0 == old(self).file().stored().following(x, y).0
                &&& final(self).position().1 == old(self).file().stored().following(x, y).1
            },
    {
        if self.y == self.inner.height() {
            return None;
        }
        let curr = (self.x, self.y);
        let cell = match self.inner.read_cell(curr.0, curr.1) {
            Ok(cell) => cell,
            Err(_) => {
                return None;
            },
        };
        if self.x + 1 == self.inner.width() {
            self.x = 0;
            self.y = self.y + 1;
        } else {
            self.x = self.x + 1;
        }
        Some(cell)
    }
}

} // verus!
