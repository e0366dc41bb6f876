use gol::error::GolError;
use gol::game_of_life::GameOfLife;
use gol::io::{
    check_magic, decode_u32, generate_gol, read_gol, write_cells, write_gol, write_header, GoLFile,
    MemoryStore,
};
use gol::iter::IntoTransitionIter;
use gol::read::Read;
use gol::utils::{adjust_coordinate, is_alive, neighbor_coordinates};

#[test]
fn write_and_read_return_same_data() {
    let data: GameOfLife = vec![
        vec![true, false, true, false, true, false, true, false, true],
        vec![false, true, false, true, false, true, false, true, false],
        vec![true, false, true, false, true, false, true, false, true],
    ]
    .into();
    let mut buffer = Vec::new();
    write_gol(&mut buffer, &data).unwrap();
    assert_eq!(buffer.len(), 12 + 9 * 3);
    let data2 = read_gol(buffer.as_slice()).unwrap();
    assert_eq!(data, data2);
}

#[test]
fn write_gol_lays_out_header_then_rows() {
    let data: GameOfLife = vec![vec![true, false, false], vec![false, true, true]].into();
    let mut buffer = vec![7u8];
    write_gol(&mut buffer, &data).unwrap();
    assert_eq!(
        buffer,
        vec![7, b'G', b'O', b'F', b'L', 0, 0, 0, 3, 0, 0, 0, 2, 1, 0, 0, 0, 1, 1]
    );
}

#[test]
fn write_gol_uses_big_endian_sizes() {
    let data: GameOfLife = vec![vec![false; 258]].into();
    let mut buffer = Vec::new();
    write_gol(&mut buffer, &data).unwrap();
    assert_eq!(&buffer[..12], b"GOFL\x00\x00\x01\x02\x00\x00\x00\x01");
    assert_eq!(buffer.len(), 12 + 258);
}

#[test]
fn read_gol_takes_sizes_from_the_header() {
    let board = read_gol(b"GOFL\x00\x00\x00\x02\x00\x00\x00\x03\x01\x00\x00\x01\x01\x01").unwrap();
    let expected: GameOfLife =
        vec![vec![true, false], vec![false, true], vec![true, true]].into();
    assert_eq!(board, expected);
    assert_eq!(board.width(), 2);
    assert_eq!(board.height(), 3);
}

#[test]
fn read_gol_ignores_what_follows_the_cells() {
    let board = read_gol(b"GOFL\x00\x00\x00\x01\x00\x00\x00\x01\x01\x00\x01").unwrap();
    let expected: GameOfLife = vec![vec![true]].into();
    assert_eq!(board, expected);
}

#[test]
fn read_gol_counts_only_one_as_alive() {
    let mut board = read_gol(b"GOFL\x00\x00\x00\x03\x00\x00\x00\x01\x02\x01\xff").unwrap();
    assert_eq!(board.read_cell(0, 0), Ok(false));
    assert_eq!(board.read_cell(1, 0), Ok(true));
    assert_eq!(board.read_cell(2, 0), Ok(false));
}

#[test]
fn read_gol_refuses_bad_input() {
    assert_eq!(read_gol(b"GOFL\x00\x00").err(), Some(GolError::IoFailure));
    assert_eq!(read_gol(b"").err(), Some(GolError::IoFailure));
    assert_eq!(
        read_gol(b"LIFE\x00\x00\x00\x01\x00\x00\x00\x01\x00").err(),
        Some(GolError::InvalidFormat)
    );
    assert_eq!(
        read_gol(b"GOFL\x00\x00\x00\x02\x00\x00\x00\x02\x00\x00\x00").err(),
        Some(GolError::IoFailure)
    );
    assert_eq!(
        read_gol(b"GOFL\xff\xff\xff\xff\xff\xff\xff\xff\x00").err(),
        Some(GolError::IoFailure)
    );
}

#[test]
fn empty_boards_round_trip() {
    let empty: GameOfLife = Vec::<Vec<bool>>::new().into();
    let mut buffer = Vec::new();
    write_gol(&mut buffer, &empty).unwrap();
    assert_eq!(buffer, b"GOFL\x00\x00\x00\x00\x00\x00\x00\x00".to_vec());
    assert_eq!(read_gol(buffer.as_slice()).unwrap(), empty);

    let no_columns: GameOfLife = vec![vec![], vec![], vec![]].into();
    let mut buffer = Vec::new();
    write_gol(&mut buffer, &no_columns).unwrap();
    assert_eq!(buffer, b"GOFL\x00\x00\x00\x00\x00\x00\x00\x03".to_vec());
    assert_eq!(read_gol(buffer.as_slice()).unwrap(), no_columns);
}

#[test]
fn liveness_rule_table() {
    let alive = |n: usize| {
        let mut neighbors = [Some(false); 8];
        for slot in neighbors.iter_mut().take(n) {
            *slot = Some(true);
        }
        neighbors
    };
    assert_eq!(is_alive(true, &alive(2)), true);
    assert_eq!(is_alive(true, &alive(3)), true);
    assert_eq!(is_alive(true, &alive(1)), false);
    assert_eq!(is_alive(true, &alive(4)), false);
    assert_eq!(is_alive(false, &alive(3)), true);
    assert_eq!(is_alive(false, &alive(2)), false);
    assert_eq!(is_alive(true, &alive(0)), false);
    assert_eq!(is_alive(false, &alive(8)), false);
    assert_eq!(is_alive(true, &alive(8)), false);
}

#[test]
fn absent_neighbors_count_as_dead() {
    let neighbors = [None, Some(true), None, Some(true), None, None, Some(false), None];
    assert_eq!(is_alive(true, &neighbors), true);
    assert_eq!(is_alive(false, &neighbors), false);
    assert_eq!(is_alive(true, &[None; 8]), false);
    assert_eq!(is_alive(false, &[]), false);
}

#[test]
fn neighbor_coordinates_in_order() {
    assert_eq!(
        neighbor_coordinates(5, 7),
        [
            Some((4, 6)),
            Some((5, 6)),
            Some((6, 6)),
            Some((6, 7)),
            Some((6, 8)),
            Some((5, 8)),
            Some((4, 8)),
            Some((4, 7)),
        ]
    );
}

#[test]
fn neighbor_coordinates_at_the_origin() {
    let found = neighbor_coordinates(0, 0);
    assert_eq!(found, [None, None, None, Some((1, 0)), Some((1, 1)), Some((0, 1)), None, None]);
    assert_eq!(found.iter().filter(|c| c.is_some()).count(), 3);
}

#[test]
fn neighbor_coordinates_are_not_clipped_above() {
    let found = neighbor_coordinates(0, 3);
    assert_eq!(
        found,
        [None, Some((0, 2)), Some((1, 2)), Some((1, 3)), Some((1, 4)), Some((0, 4)), None, None]
    );
}

#[test]
fn adjust_coordinate_needs_both_directions() {
    assert_eq!(adjust_coordinate((3, 4), -1, 1), Some((2, 5)));
    assert_eq!(adjust_coordinate((0, 4), -1, 1), None);
    assert_eq!(adjust_coordinate((3, 0), 1, -1), None);
    assert_eq!(adjust_coordinate((usize::MAX, 0), 1, 0), None);
    assert_eq!(adjust_coordinate((3, 4), 0, 0), Some((3, 4)));
}

fn blinker() -> GameOfLife {
    vec![
        vec![false, false, false],
        vec![true, true, true],
        vec![false, false, false],
    ]
    .into()
}

#[test]
fn blinker_turns() {
    let upright: GameOfLife = vec![
        vec![false, true, false],
        vec![false, true, false],
        vec![false, true, false],
    ]
    .into();
    assert!(blinker().is_rectangular());
    assert_eq!(blinker().transition(), upright);
    assert_eq!(upright.transition(), blinker());
}

#[test]
fn iter_gives_cells_row_by_row() {
    let board: GameOfLife = vec![vec![true, false], vec![false, false], vec![true, true]].into();
    assert_eq!(board.iter(), vec![true, false, false, false, true, true]);
}

#[test]
fn board_in_memory_reads() {
    let mut board = blinker();
    assert_eq!(board.width(), 3);
    assert_eq!(board.height(), 3);
    assert_eq!(board.read_cell(1, 1), Ok(true));
    assert_eq!(board.read_cell(0, 0), Ok(false));
    assert_eq!(board.read_cell(3, 0), Err(GolError::OutOfRange));
    assert_eq!(board.read_cell(0, 3), Err(GolError::OutOfRange));
    assert_eq!(
        board.read_neighbors(0, 0),
        Ok([None, None, None, Some(false), Some(true), Some(true), None, None])
    );
    assert_eq!(
        board.read_neighbors(2, 2),
        Ok([Some(true), Some(true), None, None, None, None, None, Some(false)])
    );
}

#[test]
fn short_rows_hold_no_cell() {
    let mut board: GameOfLife = vec![vec![true, true], vec![false]].into();
    assert!(!board.is_rectangular());
    assert_eq!(board.read_cell(1, 0), Ok(true));
    assert_eq!(board.read_cell(0, 1), Ok(false));
    assert_eq!(board.read_cell(1, 1), Err(GolError::CorruptData));
    assert_eq!(
        board.read_neighbors(0, 0),
        Ok([None, None, None, Some(true), None, Some(false), None, None])
    );
}

fn file_bytes(board: &GameOfLife) -> Vec<u8> {
    let mut bytes = Vec::new();
    write_gol(&mut bytes, board).unwrap();
    bytes
}

fn pattern(width: usize, height: usize) -> GameOfLife {
    let mut rows = Vec::new();
    for y in 0..height {
        let mut row = Vec::new();
        for x in 0..width {
            row.push((x * 7 + y * 3 + x * y) % 5 < 2);
        }
        rows.push(row);
    }
    rows.into()
}

fn assert_reader_matches(width: usize, height: usize, max_capacity: usize) {
    let mut board = pattern(width, height);
    let bytes = file_bytes(&board);
    let mut reader =
        GoLFile::with_max_capacity(MemoryStore::new(bytes.clone()), max_capacity).unwrap();
    for y in 0..height + 2 {
        for x in 0..width + 2 {
            assert_eq!(reader.read_cell(x, y), board.read_cell(x, y));
            assert_eq!(reader.read_neighbors(x, y), board.read_neighbors(x, y));
        }
    }
    let mut reader = GoLFile::with_max_capacity(MemoryStore::new(bytes), max_capacity).unwrap();
    for y in (0..height).rev() {
        for x in (0..width).rev() {
            assert_eq!(reader.read_neighbors(x, y), board.read_neighbors(x, y));
            assert_eq!(reader.read_cell(x, y), board.read_cell(x, y));
        }
    }
}

#[test]
fn reader_matches_board_with_whole_rows() {
    assert_reader_matches(7, 9, 3000);
    assert_reader_matches(7, 9, 21);
    assert_reader_matches(7, 9, 28);
    assert_reader_matches(1, 1, 3);
    assert_reader_matches(2, 5, 6);
}

#[test]
fn reader_matches_board_with_three_partial_rows() {
    assert_reader_matches(7, 9, 9);
    assert_reader_matches(7, 9, 12);
    assert_reader_matches(7, 9, 20);
    assert_reader_matches(11, 6, 10);
    assert_reader_matches(40, 3, 100);
}

#[test]
fn transition_iter_yields_next_generation_in_row_order() {
    let items = blinker().into_transition_iter().collect();
    assert_eq!(
        items,
        vec![
            (0, 0, false),
            (1, 0, true),
            (2, 0, false),
            (0, 1, false),
            (1, 1, true),
            (2, 1, false),
            (0, 2, false),
            (1, 2, true),
            (2, 2, false),
        ]
    );
}

#[test]
fn transition_iter_is_repeatable() {
    let first = pattern(6, 5).into_transition_iter().collect();
    let second = pattern(6, 5).into_transition_iter().collect();
    assert_eq!(first, second);
    assert_eq!(first.len(), 30);
    for (k, item) in first.iter().enumerate() {
        assert_eq!((item.0, item.1), (k % 6, k / 6));
    }
}

#[test]
fn transition_iter_steps_and_ends() {
    let mut iter = blinker().into_transition_iter();
    assert_eq!(iter.next(), Some((0, 0, false)));
    assert_eq!(iter.next(), Some((1, 0, true)));
    for _ in 0..7 {
        assert!(iter.next().is_some());
    }
    assert_eq!(iter.next(), None);
    assert_eq!(iter.next(), None);
}

#[test]
fn transition_iter_over_a_file_matches_transition() {
    let board = pattern(9, 8);
    let next = board.transition();
    for max_capacity in [9, 15, 27, 3000] {
        let reader =
            GoLFile::with_max_capacity(MemoryStore::new(file_bytes(&board)), max_capacity)
                .unwrap();
        let items = reader.into_transition_iter().collect();
        let values: Vec<bool> = items.iter().map(|item| item.2).collect();
        assert_eq!(values, next.iter());
    }
}

#[test]
fn transition_iter_stops_at_a_cell_it_cannot_read() {
    let bytes = b"GOFL\x00\x00\x00\x02\x00\x00\x00\x02\x01\x01\x02\x01".to_vec();
    let reader = GoLFile::new(MemoryStore::new(bytes)).unwrap();
    let mut iter = reader.into_transition_iter();
    assert_eq!(iter.next(), Some((0, 0, true)));
    assert_eq!(iter.next(), Some((1, 0, true)));
    assert_eq!(iter.next(), None);
    assert_eq!(iter.next(), None);
}

#[test]
fn transition_iter_over_an_empty_board() {
    let empty: GameOfLife = Vec::<Vec<bool>>::new().into();
    assert_eq!(empty.into_transition_iter().collect(), vec![]);
    let no_columns: GameOfLife = vec![vec![], vec![]].into();
    assert_eq!(no_columns.into_transition_iter().collect(), vec![]);
}

#[test]
fn board_from_a_file() {
    let board = pattern(5, 4);
    let reader = GoLFile::with_max_capacity(MemoryStore::new(file_bytes(&board)), 9).unwrap();
    assert_eq!(GameOfLife::try_from(reader), Ok(board));
}

#[test]
fn board_from_a_file_with_a_bad_cell() {
    let bytes = b"GOFL\x00\x00\x00\x02\x00\x00\x00\x01\x01\x02".to_vec();
    let reader = GoLFile::new(MemoryStore::new(bytes)).unwrap();
    assert_eq!(GameOfLife::try_from(reader), Err(GolError::CorruptData));
}

#[test]
fn header_and_cells_are_written_apart() {
    let mut bytes = vec![9u8];
    write_header(&mut bytes, 0x0102_0304, 5);
    assert_eq!(bytes, vec![9, b'G', b'O', b'F', b'L', 1, 2, 3, 4, 0, 0, 0, 5]);
    write_cells(&mut bytes, &[true, false, true]);
    assert_eq!(bytes[13..], [1, 0, 1]);
    write_cells(&mut bytes, &[]);
    assert_eq!(bytes.len(), 16);
}

#[test]
fn generated_board_is_blank() {
    let mut board = generate_gol(4, 2);
    assert_eq!(board.width(), 4);
    assert_eq!(board.height(), 10000);
    assert!(board.is_rectangular());
    assert_eq!(board.read_cell(3, 9999), Ok(false));
    assert!(board.iter().iter().all(|alive| !alive));
    assert_eq!(board.iter().len(), 40000);
}

#[test]
fn errors_have_their_text() {
    assert_eq!(GolError::InvalidFormat.message(), "File isn't a Game of Life file");
    assert_eq!(GolError::IoFailure.message(), "Failed to read file contents");
    assert_eq!(GolError::OutOfRange.message(), "Cell was not in range");
    assert_eq!(GolError::CorruptData.message(), "Cell shouldn't be empty");
}

#[test]
fn marker_and_sizes_are_decoded() {
    assert!(check_magic(b"GOFL"));
    assert!(check_magic(b"GOFL\x00\x01"));
    assert!(!check_magic(b"GOF"));
    assert!(!check_magic(b"gofl"));
    assert!(!check_magic(b""));
    assert_eq!(decode_u32(b"GOFL\x01\x02\x03\x04", 4), 0x0102_0304);
    assert_eq!(decode_u32(b"\xff\xff\xff\xff", 0), u32::MAX);
    assert_eq!(decode_u32(b"\x00\x00\x00\x0b", 0), 11);
}

#[test]
fn boards_are_equal_by_width_and_rows() {
    let a: GameOfLife = vec![vec![true, false], vec![false, true]].into();
    let b: GameOfLife = vec![vec![true, false], vec![false, true]].into();
    let c: GameOfLife = vec![vec![true, false], vec![false, false]].into();
    let d: GameOfLife = vec![vec![true, false]].into();
    let e: GameOfLife = vec![vec![true, false], vec![false]].into();
    assert!(a == b);
    assert!(a != c);
    assert!(a != d);
    assert!(a != e);
    assert!(e == e);
}

#[test]
fn board_without_rows_keeps_the_width_of_its_header() {
    let bytes = b"GOFL\x00\x00\x00\x05\x00\x00\x00\x00";
    let board = read_gol(bytes).unwrap();
    assert_eq!(board.width(), 5);
    assert_eq!(board.height(), 0);
    let empty: GameOfLife = Vec::<Vec<bool>>::new().into();
    assert!(board != empty);
    let mut written = Vec::new();
    write_gol(&mut written, &board).unwrap();
    assert_eq!(written, bytes.to_vec());
    assert_eq!(read_gol(written.as_slice()).unwrap(), board);
    let reader = GoLFile::new(MemoryStore::new(written)).unwrap();
    assert_eq!(GameOfLife::try_from(reader), Ok(board));
}
