use tetris_core::board::Board;
use tetris_core::piece::Color;

fn block() -> Option<Color> {
    Some(Color { r: 200, g: 200, b: 200, a: 255 })
}

fn marker() -> Option<Color> {
    Some(Color { r: 1, g: 2, b: 3, a: 255 })
}

fn fill_row(b: &mut Board, y: usize) {
    for x in 0..b.width {
        b.set_cell(x, y, block());
    }
}

fn occupied_count(b: &Board) -> usize {
    let mut n = 0;
    for y in 0..b.height {
        for x in 0..b.width {
            if b.cell(x, y).is_some() {
                n += 1;
            }
        }
    }
    n
}

#[test]
fn new_board_is_empty() {
    let b = Board::new(10, 20);
    assert_eq!(b.width, 10);
    assert_eq!(b.height, 20);
    assert_eq!(occupied_count(&b), 0);
}

#[test]
fn set_cell_then_read_it_back() {
    let mut b = Board::new(10, 20);
    b.set_cell(3, 7, marker());
    assert_eq!(b.cell(3, 7), marker());
    assert_eq!(b.cell(4, 7), None);
    assert_eq!(b.cell(3, 8), None);
    assert_eq!(occupied_count(&b), 1);
}

#[test]
fn check_lines_empty_board_is_none() {
    let b = Board::new(10, 20);
    assert_eq!(b.check_lines(), None);
}

#[test]
fn check_lines_single_full_row() {
    let mut b = Board::new(10, 20);
    fill_row(&mut b, 5);
    assert_eq!(b.check_lines(), Some((1, 5)));
}

#[test]
fn check_lines_two_contiguous_full_rows() {
    let mut b = Board::new(10, 20);
    fill_row(&mut b, 7);
    fill_row(&mut b, 8);
    assert_eq!(b.check_lines(), Some((2, 7)));
}

#[test]
fn check_lines_reports_only_first_run() {
    let mut b = Board::new(10, 20);
    fill_row(&mut b, 3);
    fill_row(&mut b, 10);
    assert_eq!(b.check_lines(), Some((1, 3)));
}

#[test]
fn check_lines_run_reaching_the_bottom() {
    let mut b = Board::new(10, 20);
    fill_row(&mut b, 18);
    fill_row(&mut b, 19);
    assert_eq!(b.check_lines(), Some((2, 18)));
}

#[test]
fn check_lines_almost_full_row_is_none() {
    let mut b = Board::new(10, 20);
    for x in 0..9 {
        b.set_cell(x, 12, block());
    }
    assert_eq!(b.check_lines(), None);
}

#[test]
fn delete_rows_single_full_row_shifts_rows_down() {
    let mut b = Board::new(4, 6);
    fill_row(&mut b, 4);
    b.set_cell(0, 3, marker());
    b.set_cell(1, 5, marker());
    b.delete_rows();
    // The marker above the cleared row slid down one row.
    assert_eq!(b.cell(0, 4), marker());
    assert_eq!(b.cell(0, 3), None);
    // The row below the cleared one stayed put.
    assert_eq!(b.cell(1, 5), marker());
    // The top row is empty and nothing else is occupied.
    for x in 0..4 {
        assert_eq!(b.cell(x, 0), None);
    }
    assert_eq!(occupied_count(&b), 2);
    assert_eq!(b.check_lines(), None);
}

#[test]
fn delete_rows_two_noncontiguous_full_rows() {
    let mut b = Board::new(10, 20);
    fill_row(&mut b, 3);
    fill_row(&mut b, 10);
    b.set_cell(5, 7, marker());
    b.delete_rows();
    assert_eq!(b.check_lines(), None);
    // Both full rows are gone; only the marker survives. One full row was
    // above it and one below, so it slides down exactly one row.
    assert_eq!(occupied_count(&b), 1);
    assert_eq!(b.cell(5, 8), marker());
}

#[test]
fn small_board_clear_scenario() {
    // A 4x4 board whose bottom row is fully occupied: the run is reported
    // as one row starting at row 3, and clearing leaves the board empty.
    let mut b = Board::new(4, 4);
    fill_row(&mut b, 3);
    assert_eq!(b.check_lines(), Some((1, 3)));
    b.delete_rows();
    assert_eq!(b.check_lines(), None);
    assert_eq!(occupied_count(&b), 0);
}

#[test]
fn delete_rows_on_clean_board_changes_nothing() {
    let mut b = Board::new(10, 20);
    b.set_cell(2, 19, marker());
    b.set_cell(9, 0, marker());
    b.delete_rows();
    assert_eq!(b.cell(2, 19), marker());
    assert_eq!(b.cell(9, 0), marker());
    assert_eq!(occupied_count(&b), 2);
}

#[test]
fn one_by_one_board_clears() {
    let mut b = Board::new(1, 1);
    assert_eq!(b.check_lines(), None);
    b.set_cell(0, 0, block());
    assert_eq!(b.check_lines(), Some((1, 0)));
    b.delete_rows();
    assert_eq!(b.check_lines(), None);
    assert_eq!(b.cell(0, 0), None);
}

#[test]
fn full_column_is_not_a_full_row() {
    let mut b = Board::new(10, 20);
    for y in 0..20 {
        b.set_cell(0, y, block());
    }
    assert_eq!(b.check_lines(), None);
    b.delete_rows();
    assert_eq!(occupied_count(&b), 20);
}
