use aoclib::{Grid, GridColIter, GridError, GridRowIter};

const SMILEY_GRID: &[u8] = b"\
        s...........\n\
        ..XX....XX..\n\
        ............\n\
        ..oo....oo..\n\
        ...oooooo...\n\
        ...........e";

fn smiley() -> Grid<u8> {
    Grid::parse(SMILEY_GRID).unwrap()
}

fn row_bytes(mut it: GridRowIter<'_, u8>) -> Vec<u8> {
    let mut out = Vec::new();
    while let Some(v) = it.next() {
        out.push(*v);
    }
    out
}

fn col_bytes(mut it: GridColIter<'_, u8>) -> Vec<u8> {
    let mut out = Vec::new();
    while let Some(v) = it.next() {
        out.push(*v);
    }
    out
}

fn kind(c: &u8) -> &'static str {
    match c {
        b'.' => "skin",
        b'o' => "mouth",
        b'X' => "eye",
        _ => "other",
    }
}

#[test]
fn dimensions() {
    let grid = smiley();

    assert_eq!(grid.width(), 12);
    assert_eq!(grid.height(), 6);
}

#[test]
fn indexing() {
    let grid = smiley();

    assert_eq!(*grid.get(0, 0), b's');
    assert_eq!(*grid.get(11, 5), b'e');
    assert_eq!(*grid.get(3, 1), b'X');
    assert_eq!(*grid.get(7, 4), b'o');
}

#[test]
fn row() {
    let grid = smiley();

    let row_1 = row_bytes(grid.row(1).into_iter());
    let row_2 = row_bytes(grid.row(4).into_iter());

    assert_eq!(row_1, b"..XX....XX..");
    assert_eq!(row_2, b"...oooooo...");
}

#[test]
fn col() {
    let grid = smiley();

    let col_2 = col_bytes(grid.col(2).into_iter());
    let col_11 = col_bytes(grid.col(11).into_iter());

    assert_eq!(col_2, b".X.o..");
    assert_eq!(col_11, b".....e");
}

#[test]
fn rows_cols_iter() {
    let grid = Grid::parse(b"ab\ncd").unwrap();

    let mut rows = Vec::new();
    let mut rows_it = grid.rows();
    while let Some(row) = rows_it.next() {
        rows.push(row_bytes(row.into_iter()));
    }
    let mut cols = Vec::new();
    let mut cols_it = grid.cols();
    while let Some(col) = cols_it.next() {
        cols.push(col_bytes(col.into_iter()));
    }

    assert_eq!(rows, [[b'a', b'b'], [b'c', b'd']]);
    assert_eq!(cols, [[b'a', b'c'], [b'b', b'd']]);
}

#[test]
fn map() {
    let grid = smiley();

    let grid = grid.map(kind);

    assert_eq!(*grid.get(0, 0), "other");
    assert_eq!(*grid.get(8, 1), "eye");
    assert_eq!(*grid.get(8, 3), "mouth");
    assert_eq!(*grid.get(5, 2), "skin");
}

#[test]
fn map_indexed() {
    let grid = smiley();

    let grid = grid.map_indexed(|c, x, y| (x + y, kind(c)));

    assert_eq!(*grid.get(0, 0), (0, "other"));
    assert_eq!(*grid.get(8, 1), (9, "eye"));
    assert_eq!(*grid.get(8, 3), (11, "mouth"));
    assert_eq!(*grid.get(5, 2), (7, "skin"));
}

#[test]
fn row_index() {
    let grid = smiley();

    for row in 0..grid.height() {
        let row_view = grid.row(row);
        for col in 0..grid.width() {
            assert_eq!(row_view[col], *grid.get(col, row));
        }
    }
}

#[test]
fn col_index() {
    let grid = smiley();

    for col in 0..grid.width() {
        let col_view = grid.col(col);
        for row in 0..grid.height() {
            assert_eq!(col_view[row], *grid.get(col, row));
        }
    }
}

#[test]
fn parse_invalid_grid() {
    assert!(matches!(Grid::parse(b"..\n."), Err(GridError::InvalidGrid)));
}

#[test]
fn last_line_terminated_by_newline() {
    let grid = Grid::parse(b"...\n...\n").unwrap();
    assert_eq!(grid.width(), 3);
    assert_eq!(grid.height(), 2);
}

#[test]
fn parse_shorter_second_line() {
    assert!(matches!(Grid::parse(b".\n.."), Err(GridError::InvalidGrid)));
}

#[test]
fn parse_two_trailing_newlines() {
    assert!(matches!(Grid::parse(b"..\n..\n\n"), Err(GridError::InvalidGrid)));
}

#[test]
fn parse_empty_line_in_the_middle() {
    assert!(matches!(Grid::parse(b"..\n\n.."), Err(GridError::InvalidGrid)));
}

#[test]
fn parse_empty_input() {
    let grid = Grid::parse(b"").unwrap();
    assert_eq!(grid.width(), 0);
    assert_eq!(grid.height(), 0);
    assert_eq!(grid.format_ascii().unwrap(), "");
}

#[test]
fn parse_single_line() {
    let grid = Grid::parse(b"abc").unwrap();
    assert_eq!(grid.width(), 3);
    assert_eq!(grid.height(), 1);
    assert_eq!(*grid.get(2, 0), b'c');
}

#[test]
fn parse_first_line_empty() {
    let grid = Grid::parse(b"\n").unwrap();
    assert_eq!(grid.width(), 0);
    assert_eq!(grid.height(), 0);
}

#[test]
fn format_round_trip_with_newline() {
    let text = b"123\n456\n789\n";
    let grid = Grid::parse(text).unwrap();
    assert_eq!(grid.format_ascii().unwrap().as_bytes(), text);
}

#[test]
fn format_round_trip_adds_final_newline() {
    let grid = smiley();
    let mut expected = SMILEY_GRID.to_vec();
    expected.push(b'\n');
    assert_eq!(grid.format_ascii().unwrap().as_bytes(), expected.as_slice());
}

#[test]
fn format_rejects_non_ascii() {
    let mut grid = Grid::parse(b"12\n34\n").unwrap();
    *grid.get_mut(0, 1) = 255;
    assert!(matches!(grid.format_ascii(), Err(GridError::InvalidEncoding)));
}

#[test]
fn get_mut_writes_one_cell() {
    let mut grid = Grid::parse(b"ab\ncd").unwrap();
    *grid.get_mut(1, 0) = b'z';
    assert_eq!(grid.format_ascii().unwrap(), "az\ncd\n");
}

#[test]
fn try_get_in_and_out_of_range() {
    let grid = Grid::parse(b"ab\ncd").unwrap();
    assert_eq!(grid.try_get(1, 1), Ok(&b'd'));
    assert_eq!(grid.try_get(2, 0), Err(GridError::IndexOutOfBounds));
    assert_eq!(grid.try_get(0, 2), Err(GridError::IndexOutOfBounds));
}

#[test]
fn map_keeps_shape() {
    let grid = Grid::parse(b"abc\ndef").unwrap();
    let upper = grid.map(|c| c.to_ascii_uppercase());
    assert_eq!(upper.width(), 3);
    assert_eq!(upper.height(), 2);
    assert_eq!(upper.format_ascii().unwrap(), "ABC\nDEF\n");
}

#[test]
fn map_indexed_gives_coordinates() {
    let grid = Grid::parse(b"abc\ndef").unwrap();
    let coords = grid.map_indexed(|_, x, y| (x, y));
    for y in 0..2 {
        for x in 0..3 {
            assert_eq!(*coords.get(x, y), (x, y));
        }
    }
}

#[test]
fn row_view_matches_get_everywhere() {
    let grid = Grid::parse(b"abc\ndef").unwrap();
    for r in 0..grid.height() {
        let cells = row_bytes(grid.row(r).into_iter());
        let expected: Vec<u8> = (0..grid.width()).map(|c| *grid.get(c, r)).collect();
        assert_eq!(cells, expected);
    }
    for c in 0..grid.width() {
        let cells = col_bytes(grid.col(c).into_iter());
        let expected: Vec<u8> = (0..grid.height()).map(|r| *grid.get(c, r)).collect();
        assert_eq!(cells, expected);
    }
}
