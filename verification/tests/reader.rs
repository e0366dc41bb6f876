use gol::error::GolError;
use gol::io::{ByteStore, GoLFile, MemoryStore};
use gol::read::Read;

#[test]
fn works_with_files_smaller_than_buffer() -> Result<(), GolError> {
    let data = b"GOFL\x00\x00\x00\x01\x00\x00\x00\x01\x00";
    let mut reader = GoLFile::new(MemoryStore::new(data.to_vec()))?;
    assert_eq!(reader.width(), 1);
    assert_eq!(reader.height(), 1);
    assert_eq!(reader.read_cell(0, 0)?, false);
    assert!(reader.read_cell(1, 0).is_err());
    assert!(reader.read_cell(0, 1).is_err());

    let data = b"GOFL\x00\x00\x00\x03\x00\x00\x00\x03\x00\x00\x00\x01\x01\x01\x00\x00\x00";
    let mut reader = GoLFile::new(MemoryStore::new(data.to_vec()))?;
    assert_eq!(reader.width(), 3);
    assert_eq!(reader.height(), 3);
    assert_eq!(reader.read_cell(0, 0)?, false);
    let expected = [false, false, false, true, true, true, false, false, false];
    for y in 0..3 {
        for x in 0..3 {
            assert_eq!(reader.read_cell(x, y)?, expected[x + y * 3]);
        }
    }
    Ok(())
}

#[test]
fn works_with_files_larger_than_buffer() -> Result<(), GolError> {
    let data = b"GOFL\x00\x00\x00\x0b\x00\x00\x00\x06\x00\x00\x00\x00\x00\
        \x00\x00\x00\x00\x00\x00\x00\x00\x00\x00\x00\x00\x00\x00\x00\x00\
        \x00\x00\x00\x00\x00\x00\x00\x00\x00\x00\x00\x00\x00\x00\x00\x00\
        \x00\x00\x00\x00\x00\x00\x00\x00\x00\x00\x00\x00\x00\x00\x00\x00\
        \x00\x00\x00\x00\x00\x00\x00\x00\x00\x00\x00\x00\x01";
    assert_eq!(data.len(), 12 + 66);
    let mut reader = GoLFile::new(MemoryStore::new(data.to_vec()))?;
    assert_eq!(reader.width(), 11);
    assert_eq!(reader.height(), 6);
    assert_eq!(reader.read_cell(0, 0)?, false);
    assert_eq!(reader.read_cell(10, 5)?, true);
    Ok(())
}

fn file_of(width: u32, height: u32, cells: &[u8]) -> Vec<u8> {
    let mut bytes = b"GOFL".to_vec();
    bytes.extend_from_slice(&width.to_be_bytes());
    bytes.extend_from_slice(&height.to_be_bytes());
    bytes.extend_from_slice(cells);
    bytes
}

#[test]
fn out_of_range_cells_are_refused_as_such() {
    let mut reader = GoLFile::new(MemoryStore::new(file_of(1, 1, &[0]))).unwrap();
    assert_eq!(reader.read_cell(0, 0), Ok(false));
    assert_eq!(reader.read_cell(1, 0), Err(GolError::OutOfRange));
    assert_eq!(reader.read_cell(0, 1), Err(GolError::OutOfRange));
    assert_eq!(reader.read_cell(usize::MAX, usize::MAX), Err(GolError::OutOfRange));
}

#[test]
fn out_of_range_read_fetches_nothing() {
    let mut reader = GoLFile::new(MemoryStore::new(file_of(2, 2, &[0, 1, 1, 0]))).unwrap();
    assert_eq!(reader.read_count(), 0);
    assert_eq!(reader.read_cell(2, 0), Err(GolError::OutOfRange));
    assert_eq!(reader.read_count(), 0);
}

#[test]
fn middle_row_alive_through_small_window() {
    let cells = [0, 0, 0, 1, 1, 1, 0, 0, 0];
    let mut reader =
        GoLFile::with_max_capacity(MemoryStore::new(file_of(3, 3, &cells)), 8).unwrap();
    let expected = [false, false, false, true, true, true, false, false, false];
    for y in 0..3 {
        for x in 0..3 {
            assert_eq!(reader.read_cell(x, y), Ok(expected[x + y * 3]));
        }
    }
}

#[test]
fn far_corner_needs_several_reloads() {
    let mut cells = vec![0u8; 66];
    cells[65] = 1;
    let mut reader =
        GoLFile::with_max_capacity(MemoryStore::new(file_of(11, 6, &cells)), 12).unwrap();
    assert_eq!(reader.read_count(), 0);
    assert_eq!(reader.read_cell(0, 0), Ok(false));
    assert_eq!(reader.read_count(), 3);
    assert_eq!(reader.read_cell(10, 5), Ok(true));
    assert_eq!(reader.read_count(), 6);
    assert_eq!(reader.read_cell(0, 0), Ok(false));
    assert_eq!(reader.read_count(), 9);
}

#[test]
fn cell_inside_window_is_not_fetched_again() {
    let cells = vec![1u8; 30];
    let mut reader = GoLFile::new(MemoryStore::new(file_of(6, 5, &cells))).unwrap();
    assert_eq!(reader.read_cell(3, 2), Ok(true));
    assert_eq!(reader.read_count(), 5);
    assert_eq!(reader.read_cell(0, 0), Ok(true));
    assert_eq!(reader.read_cell(5, 4), Ok(true));
    assert_eq!(reader.read_neighbors(2, 2), Ok([Some(true); 8]));
    assert_eq!(reader.read_count(), 5);
}

#[test]
fn missing_marker_is_invalid_format() {
    let r = GoLFile::new(MemoryStore::new(b"GOLF\x00\x00\x00\x01\x00\x00\x00\x01\x00".to_vec()));
    assert_eq!(r.err(), Some(GolError::InvalidFormat));
}

#[test]
fn short_header_is_io_failure() {
    let r = GoLFile::new(MemoryStore::new(b"GOFL\x00\x00\x00\x01".to_vec()));
    assert_eq!(r.err(), Some(GolError::IoFailure));
    let r = GoLFile::new(MemoryStore::new(Vec::new()));
    assert_eq!(r.err(), Some(GolError::IoFailure));
}

#[test]
fn missing_cells_are_io_failure() {
    let mut reader = GoLFile::new(MemoryStore::new(file_of(2, 2, &[1, 1, 1]))).unwrap();
    assert_eq!(reader.read_cell(0, 0), Err(GolError::IoFailure));
    assert_eq!(reader.read_neighbors(0, 0), Err(GolError::IoFailure));
}

#[test]
fn byte_two_is_corrupt_data() {
    let mut reader = GoLFile::new(MemoryStore::new(file_of(2, 2, &[1, 2, 0, 1]))).unwrap();
    assert_eq!(reader.read_cell(0, 0), Ok(true));
    assert_eq!(reader.read_cell(1, 0), Err(GolError::CorruptData));
    assert_eq!(reader.read_cell(0, 1), Ok(false));
    let found = reader.read_neighbors(0, 0).unwrap();
    assert_eq!(found, [None, None, None, None, Some(true), Some(false), None, None]);
}

#[test]
fn other_bytes_are_dead_cells() {
    let mut reader = GoLFile::new(MemoryStore::new(file_of(3, 1, &[3, 255, 1]))).unwrap();
    assert_eq!(reader.read_cell(0, 0), Ok(false));
    assert_eq!(reader.read_cell(1, 0), Ok(false));
    assert_eq!(reader.read_cell(2, 0), Ok(true));
}

#[test]
fn neighbors_come_clockwise_from_the_north_west() {
    let cells = [1, 0, 0, 0, 0, 1, 0, 1, 0];
    let mut reader = GoLFile::new(MemoryStore::new(file_of(3, 3, &cells))).unwrap();
    let found = reader.read_neighbors(1, 1).unwrap();
    assert_eq!(
        found,
        [
            Some(true),
            Some(false),
            Some(false),
            Some(true),
            Some(false),
            Some(true),
            Some(false),
            Some(false),
        ]
    );
}

#[test]
fn corner_cell_has_three_neighbors() {
    let cells = [0, 1, 1, 1];
    let mut reader = GoLFile::new(MemoryStore::new(file_of(2, 2, &cells))).unwrap();
    let found = reader.read_neighbors(0, 0).unwrap();
    assert_eq!(found.iter().filter(|n| n.is_some()).count(), 3);
    assert_eq!(found.iter().filter(|n| n.is_none()).count(), 5);
    assert_eq!(found, [None, None, None, Some(true), Some(true), Some(true), None, None]);
}

#[test]
fn neighbors_of_a_coordinate_off_the_board() {
    let cells = [1, 1, 1, 1];
    let mut reader = GoLFile::new(MemoryStore::new(file_of(2, 2, &cells))).unwrap();
    let found = reader.read_neighbors(2, 0).unwrap();
    assert_eq!(found, [None, None, None, None, None, None, Some(true), Some(true)]);
    let found = reader.read_neighbors(5, 5).unwrap();
    assert_eq!(found, [None; 8]);
}

#[test]
fn window_too_narrow_for_a_cell() {
    let cells = [1, 1, 1, 1, 1, 1, 1, 1, 1];
    let mut reader =
        GoLFile::with_max_capacity(MemoryStore::new(file_of(3, 3, &cells)), 3).unwrap();
    assert_eq!(reader.read_cell(0, 0), Ok(true));
    assert_eq!(reader.read_cell(1, 1), Err(GolError::OutOfRange));
    let mut reader =
        GoLFile::with_max_capacity(MemoryStore::new(file_of(3, 3, &cells)), 0).unwrap();
    assert_eq!(reader.read_cell(0, 0), Err(GolError::OutOfRange));
}

#[test]
fn window_too_narrow_for_a_neighbor() {
    let cells = [1, 1, 1, 1, 1, 1, 1, 1, 1, 1, 1, 1];
    let mut reader =
        GoLFile::with_max_capacity(MemoryStore::new(file_of(4, 3, &cells)), 6).unwrap();
    assert_eq!(reader.read_cell(1, 1), Ok(true));
    let found = reader.read_neighbors(1, 1).unwrap();
    assert_eq!(
        found,
        [Some(true), Some(true), None, None, None, Some(true), Some(true), Some(true)]
    );
}

#[test]
fn board_without_columns_or_rows() {
    let mut reader = GoLFile::new(MemoryStore::new(file_of(0, 4, &[]))).unwrap();
    assert_eq!(reader.width(), 0);
    assert_eq!(reader.height(), 4);
    assert_eq!(reader.read_cell(0, 0), Err(GolError::OutOfRange));
    assert_eq!(reader.read_neighbors(0, 0), Ok([None; 8]));
    let mut reader = GoLFile::new(MemoryStore::new(file_of(4, 0, &[]))).unwrap();
    assert_eq!(reader.width(), 4);
    assert_eq!(reader.height(), 0);
    assert_eq!(reader.read_cell(0, 0), Err(GolError::OutOfRange));
    assert_eq!(reader.read_neighbors(0, 0), Ok([None; 8]));
}

#[test]
fn cells_come_row_by_row() {
    let cells = [1, 0, 0, 0, 1, 1];
    let reader = GoLFile::new(MemoryStore::new(file_of(3, 2, &cells))).unwrap();
    let mut iter = reader.into_iter();
    let mut seen = Vec::new();
    while let Some(cell) = iter.next() {
        seen.push(cell);
    }
    assert_eq!(seen, vec![true, false, false, false, true, true]);
    assert_eq!(iter.next(), None);
}

#[test]
fn memory_store_reads_only_what_it_holds() {
    let mut store = MemoryStore::new(vec![10, 20, 30, 40]);
    let mut buf = vec![0u8; 3];
    assert!(store.read_at(1, &mut buf[..2]));
    assert_eq!(buf, vec![20, 30, 0]);
    assert!(store.read_at(1, &mut buf));
    assert_eq!(buf, vec![20, 30, 40]);
    assert!(!store.read_at(2, &mut buf));
    assert!(!store.read_at(u64::MAX, &mut buf[..1]));
    assert!(store.read_at(4, &mut buf[..0]));
    assert!(!store.read_at(5, &mut buf[..0]));
    assert_eq!(store.into_inner(), vec![10, 20, 30, 40]);
}
