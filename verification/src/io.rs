//! The board file format, and readers and writers for it.
//!
//! A board file begins with the four ASCII bytes `GOFL`, followed by two
//! 32 bit big-endian integers: the width of the board, then its height.
//! After those twelve bytes come the cells of the board, row by row, one
//! byte each: `0` for a dead cell, `1` for a live one. Nothing follows them.

pub mod gol_file;
pub mod store;

pub use gol_file::GoLFile;
pub use store::{ByteStore, MemoryStore};

use vstd::prelude::*;

use crate::error::GolError;
use crate::game_of_life::{rectangular, GameOfLife};
use crate::read::Read;

verus! {

/// The number of bytes before the first cell.
pub const HEADER_SIZE: usize = 12;

/// Whether `bytes` begins with the marker `GOFL`.
pub open spec fn has_magic(bytes: Seq<u8>) -> bool {
    &&& bytes.len() >= 4
    &&& bytes[0] == 0x47
    &&& bytes[1] == 0x4f
    &&& bytes[2] == 0x46
    &&& bytes[3] == 0x4c
}

/// The big-endian number in the four bytes from index `at`.
pub open spec fn be_u32(bytes: Seq<u8>, at: int) -> nat {
    (bytes[at] as nat) * 0x100_0000 + (bytes[at + 1] as nat) * 0x1_0000 + (bytes[at + 2] as nat)
        * 0x100 + (bytes[at + 3] as nat)
}

/// The width that the header in `bytes` declares.
pub open spec fn header_width(bytes: Seq<u8>) -> nat {
    be_u32(bytes, 4)
}

/// The height that the header in `bytes` declares.
pub open spec fn header_height(bytes: Seq<u8>) -> nat {
    be_u32(bytes, 8)
}

/// Where in a file the cell at `(x, y)` of a board `width` wide stands.
pub open spec fn cell_offset(width: nat, x: int, y: int) -> int {
    HEADER_SIZE + y * width + x
}

/// The number of bytes of a whole file for a board of the given size.
pub open spec fn file_len(width: nat, height: nat) -> nat {
    HEADER_SIZE as nat + height * width
}

/// Checks for the marker at the front of `bytes`.
pub fn check_magic(bytes: &[u8]) -> (r: bool)
    ensures
        r == has_magic(bytes@),
{
    bytes.len() >= 4 && bytes[0] == 0x47 && bytes[1] == 0x4f && bytes[2] == 0x46 && bytes[3]
        == 0x4c
}

/// Decodes the big-endian number in the four bytes from index `at`.
pub fn decode_u32(bytes: &[u8], at: usize) -> (r: u32)
    requires
        at + 4 <= bytes.len(),
    ensures
        r == be_u32(bytes@, at as int),
{
    let b0 = bytes[at] as u32;
    let b1 = bytes[at + 1] as u32;
    let b2 = bytes[at + 2] as u32;
    let b3 = bytes[at + 3] as u32;
    b0 * 0x100_0000 + b1 * 0x1_0000 + b2 * 0x100 + b3
}

/// The four bytes of `v` in big-endian order.
pub open spec fn be_bytes(v: nat) -> Seq<u8> {
    seq![
        (v / 0x100_0000 % 0x100) as u8,
        (v / 0x1_0000 % 0x100) as u8,
        (v / 0x100 % 0x100) as u8,
        (v % 0x100) as u8,
    ]
}

/// The byte that stands for a cell.
pub open spec fn cell_byte(alive: bool) -> u8 {
    if alive {
        1
    } else {
        0
    }
}

/// The header of a file for a board of the given size.
pub open spec fn header(width: nat, height: nat) -> Seq<u8> {
    seq![0x47u8, 0x4fu8, 0x46u8, 0x4cu8] + be_bytes(width) + be_bytes(height)
}

/// The file for a board `width` wide that holds `rows`: the header, then
/// the cells of every row in turn.
pub open spec fn encoding(width: nat, rows: Seq<Seq<bool>>) -> Seq<u8> {
    header(width, rows.len()) + rows.flatten().map_values(|alive: bool| cell_byte(alive))
}

/// Whether `bytes` hold a header with the marker and all the cells that the
/// header announces.
pub open spec fn decodable(bytes: Seq<u8>) -> bool {
    &&& bytes.len() >= HEADER_SIZE
    &&& has_magic(bytes)
    &&& bytes.len() >= file_len(header_width(bytes), header_height(bytes))
}

/// The rows of the board that `bytes` hold: a cell is alive where its byte
/// is `1`.
pub open spec fn decoded_rows(bytes: Seq<u8>) -> Seq<Seq<bool>> {
    Seq::new(
        header_height(bytes),
        |y: int|
            Seq::new(
                header_width(bytes),
                |x: int| bytes[cell_offset(header_width(bytes), x, y)] == 1,
            ),
    )
}

/// The cells of rows that are all `width` long stand in the flattened rows
/// at `y * width + x`.
pub proof fn lemma_flatten_rectangular<A>(width: nat, rows: Seq<Seq<A>>)
    requires
        rectangular(width, rows),
    ensures
        rows.flatten().len() == rows.len() * width,
        forall|y: int, x: int|
            0 <= y < rows.len() && 0 <= x < width ==> rows.flatten()[y * width + x]
                == #[trigger] rows[y][x],
    decreases rows.len(),
{
    if rows.len() == 0 {
        assert(rows.flatten().len() == 0);
        assert(rows.len() * width == 0) by (nonlinear_arith)
            requires
                rows.len() == 0,
        ;
    } else {
        let front = rows.drop_last();
        let last = rows.last();
        lemma_flatten_rectangular(width, front);
        assert(rows =~= front.push(last));
        front.lemma_flatten_push(last);
        assert(rows.flatten() =~= front.flatten() + last);
        assert(front.len() * width + width == rows.len() * width) by (nonlinear_arith)
            requires
                front.len() + 1 == rows.len(),
        ;
        assert forall|y: int, x: int| 0 <= y < rows.len() && 0 <= x < width implies rows.flatten()[y
            * width + x] == #[trigger] rows[y][x] by {
            if y < front.len() {
                assert((y + 1) * width <= front.len() * width) by (nonlinear_arith)
                    requires
                        y + 1 <= front.len(),
                        0 <= width,
                ;
                assert((y + 1) * width == y * width + width) by (nonlinear_arith);
                assert(0 <= y * width) by (nonlinear_arith)
                    requires
                        0 <= y,
                        0 <= width,
                ;
                assert(front[y][x] == rows[y][x]);
            } else {
                assert(y * width == front.len() * width);
            }
        }
    }
}

/// Decoding the file of a board gives the board back: the file holds the
/// marker, the board's width and height, and exactly the board's cells.
pub proof fn lemma_round_trip(width: nat, rows: Seq<Seq<bool>>)
    requires
        rectangular(width, rows),
        width <= u32::MAX,
        rows.len() <= u32::MAX,
    ensures
        encoding(width, rows).len() == file_len(width, rows.len()),
        decodable(encoding(width, rows)),
        header_width(encoding(width, rows)) == width,
        header_height(encoding(width, rows)) == rows.len(),
        decoded_rows(encoding(width, rows)) == rows,
{
    let bytes = encoding(width, rows);
    let height = rows.len();
    lemma_flatten_rectangular(width, rows);
    lemma_be_bytes(width);
    lemma_be_bytes(height);
    assert(forall|i: int| 0 <= i < 12 ==> bytes[i] == header(width, height)[i]);
    assert forall|y: int, x: int| 0 <= y < height && 0 <= x < width implies (bytes[cell_offset(
        width,
        x,
        y,
    )] == 1) == #[trigger] rows[y][x] by {
        assert((y + 1) * width <= height * width) by (nonlinear_arith)
            requires
                y + 1 <= height,
                0 <= width,
        ;
        assert((y + 1) * width == y * width + width) by (nonlinear_arith);
        assert(0 <= y * width) by (nonlinear_arith)
            requires
                0 <= y,
                0 <= width,
        ;
        assert(bytes[12 + (y * width + x)] == cell_byte(rows.flatten()[y * width + x]));
    }
    assert(decoded_rows(bytes) =~~= rows);
}

/// The big-endian bytes of a number below 2^32 decode to the number.
proof fn lemma_be_bytes(v: nat)
    requires
        v <= u32::MAX,
    ensures
        be_u32(be_bytes(v), 0) == v,
{
}

/// Appends the four big-endian bytes of `v` to `output`.
fn push_u32(output: &mut Vec<u8>, v: u32)
    ensures
        final(output)@ == old(output)@ + be_bytes(v as nat),
{
    output.push((v / 0x100_0000) as u8);
    output.push((v / 0x1_0000 % 0x100) as u8);
    output.push((v / 0x100 % 0x100) as u8);
    output.push((v % 0x100) as u8);
    assert(final(output)@ =~= old(output)@ + be_bytes(v as nat));
}

/// Appends the header of a file for a board of the given size to `output`.
pub fn write_header(output: &mut Vec<u8>, width: u32, height: u32)
    ensures
        final(output)@ == old(output)@ + header(width as nat, height as nat),
{
    output.push(0x47);
    output.push(0x4f);
    output.push(0x46);
    output.push(0x4c);
    push_u32(output, width);
    push_u32(output, height);
    assert(final(output)@ =~= old(output)@ + header(width as nat, height as nat));
}

/// Appends the bytes of the given cells to `output`, one for each cell in
/// turn.
pub fn write_cells(output: &mut Vec<u8>, cells: &[bool])
    ensures
        final(output)@ == old(output)@ + cells@.map_values(|alive: bool| cell_byte(alive)),
{
    let mut i: usize = 0;
    while i < cells.len()
        invariant
            i <= cells.len(),
            output@ == old(output)@ + cells@.take(i as int).map_values(
                |alive: bool| cell_byte(alive),
            ),
        decreases cells.len() - i,
    {
        output.push(
            if cells[i] {
                1
            } else {
                0
            },
        );
        assert(cells@.take(i + 1).map_values(|alive: bool| cell_byte(alive)) =~= cells@.take(
            i as int,
        ).map_values(|alive: bool| cell_byte(alive)).push(cell_byte(cells[i as int])));
        i = i + 1;
    }
    assert(cells@.take(i as int) =~= cells@);
}

/// Create a GameOfLife by reading .gol formatted data.
///
/// The data must begin with a whole header that carries the marker, and
/// hold every cell of the board that the header announces; what follows
/// the last cell is ignored. The board has the header's width and height.
pub fn read_gol(input: &[u8]) -> (r: Result<GameOfLife, GolError>)
    ensures
        match r {
            Ok(board) => {
                &&& decodable(input@)
                &&& board.valid()
                &&& board.cols() == header_width(input@)
                &&& board@ == decoded_rows(input@)
            },
            Err(GolError::InvalidFormat) => input@.len() >= HEADER_SIZE && !has_magic(input@),
            Err(GolError::IoFailure) => !decodable(input@) && (input@.len() >= HEADER_SIZE
                ==> has_magic(input@)),
            Err(_) => false,
        },
{
    if input.len() < HEADER_SIZE {
        return Err(GolError::IoFailure);
    }
    if !check_magic(input) {
        return Err(GolError::InvalidFormat);
    }
    let width = decode_u32(input, 4) as usize;
    let height = decode_u32(input, 8) as usize;
    assert(height * width <= 0xffff_ffff * 0xffff_ffff) by (nonlinear_arith)
        requires
            0 <= height <= 0xffff_ffff,
            0 <= width <= 0xffff_ffff,
    ;
    if (height as u64) * (width as u64) > (input.len() - HEADER_SIZE) as u64 {
        return Err(GolError::IoFailure);
    }
    let mut result: Vec<Vec<bool>> = Vec::new();
    let mut at: usize = HEADER_SIZE;
    let mut y: usize = 0;
    while y < height
        invariant
            y <= height,
            at == cell_offset(width as nat, 0, y as int),
            HEADER_SIZE + height * width <= input.len(),
            result.len() == y,
            width == header_width(input@),
            height == header_height(input@),
            forall|k: int| 0 <= k < y ==> (#[trigger] result[k])@ == decoded_rows(input@)[k],
        decreases height - y,
    {
        proof {
            assert((y + 1) * width <= height * width) by (nonlinear_arith)
                requires
                    y + 1 <= height,
                    0 <= width,
            ;
            assert((y + 1) * width == y * width + width) by (nonlinear_arith);
        }
        let mut row: Vec<bool> = Vec::new();
        let mut x: usize = 0;
        while x < width
            invariant
                x <= width,
                y < height,
                at == cell_offset(width as nat, x as int, y as int),
                at + (width - x) <= input.len(),
                row.len() == x,
                width == header_width(input@),
                height == header_height(input@),
                forall|k: int|
                    0 <= k < x ==> #[trigger] row[k] == decoded_rows(input@)[y as int][k],
            decreases width - x,
        {
            row.push(input[at] == 1);
            at = at + 1;
            x = x + 1;
        }
        assert(row@ =~= decoded_rows(input@)[y as int]);
        result.push(row);
        y = y + 1;
    }
    let board = GameOfLife::with_width(width, result);
    assert(board@ =~= decoded_rows(input@));
    Ok(board)
}

/// Writes a .gol file to output: the header, then every cell of the board,
/// row by row. Nothing is written for a board whose width or height does
/// not fit in the 32 bits that the header has for it.
pub fn write_gol(output: &mut Vec<u8>, state: &GameOfLife) -> (r: Result<(), GolError>)
    requires
        state.valid(),
    ensures
        r is Ok <==> state.cols() <= u32::MAX && state@.len() <= u32::MAX,
        match r {
            Ok(_) => final(output)@ == old(output)@ + encoding(state.cols(), state@),
            Err(e) => e == GolError::InvalidFormat && final(output)@ == old(output)@,
        },
{
    let width = state.width();
    let height = state.height();
    if width > 0xffff_ffff || height > 0xffff_ffff {
        return Err(GolError::InvalidFormat);
    }
    write_header(output, width as u32, height as u32);
    let cells = state.iter();
    write_cells(output, cells.as_slice());
    assert(final(output)@ =~= old(output)@ + encoding(state.cols(), state@));
    Ok(())
}

/// A blank board for trials: ten thousand rows of `width` dead cells.
/// `height` is not the number of rows.
pub fn generate_gol(width: u32, height: u32) -> (r: GameOfLife)
    ensures
        r.valid(),
        r.cols() == width,
        r@.len() == 10000,
        forall|y: int, x: int|
            0 <= y < 10000 && 0 <= x < width ==> r@[y].len() == width && !(#[trigger] r@[y][x]),
{
    let mut data: Vec<Vec<bool>> = Vec::new();
    let mut y: usize = 0;
    while y < 10000
        invariant
            y <= 10000,
            data.len() == y,
            forall|k: int, x: int|
                0 <= k < y && 0 <= x < width ==> data[k].len() == width && !(#[trigger] data[k][x]),
            forall|k: int| 0 <= k < y ==> (#[trigger] data[k]).len() == width,
        decreases 10000 - y,
    {
        let mut row: Vec<bool> = Vec::new();
        let mut x: usize = 0;
        while x < width as usize
            invariant
                x <= width,
                row.len() == x,
                forall|k: int| 0 <= k < x ==> !(#[trigger] row[k]),
            decreases width - x,
        {
            row.push(false);
            x = x + 1;
        }
        data.push(row);
        y = y + 1;
    }
    GameOfLife::from(data)
}

} // verus!
