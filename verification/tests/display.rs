use minesweeper::board::Board;
use minesweeper::cell::{Cell, CellDisplay};

#[test]
fn classify_covers_every_class() {
    let blank = Cell::new();
    assert_eq!(blank.classify(), CellDisplay::Hidden);
    assert_eq!(Cell { is_flagged: true, ..blank }.classify(), CellDisplay::Flagged);
    assert_eq!(Cell { is_mine: true, ..blank }.classify(), CellDisplay::Hidden);
    assert_eq!(Cell { is_revealed: true, ..blank }.classify(), CellDisplay::Empty);
    assert_eq!(
        Cell { is_revealed: true, neighbor_mines: 3, ..blank }.classify(),
        CellDisplay::Number(3)
    );
    assert_eq!(Cell { is_revealed: true, is_mine: true, ..blank }.classify(), CellDisplay::Mine);
    assert_eq!(
        Cell { is_revealed: true, is_flagged: true, neighbor_mines: 8, ..blank }.classify(),
        CellDisplay::Number(8)
    );
    assert_eq!(
        Cell { is_revealed: true, is_flagged: true, is_mine: true, ..blank }.classify(),
        CellDisplay::Mine
    );
}

#[test]
fn cell_display_follows_the_game() {
    let mut board = Board::with_mines(4, 1, &[(0, 0)]).unwrap();
    assert_eq!(board.cell_display(0, 0), CellDisplay::Hidden);
    assert_eq!(board.cell_display(1, 0), CellDisplay::Hidden);
    board.toggle_flag(0, 0);
    assert_eq!(board.cell_display(0, 0), CellDisplay::Flagged);
    board.reveal_cell(1, 0);
    assert_eq!(board.cell_display(1, 0), CellDisplay::Number(1));
    assert_eq!(board.cell_display(2, 0), CellDisplay::Hidden);
    board.reveal_cell(3, 0);
    assert_eq!(board.cell_display(2, 0), CellDisplay::Empty);
    assert_eq!(board.cell_display(3, 0), CellDisplay::Empty);
    board.reveal_all();
    assert_eq!(board.cell_display(0, 0), CellDisplay::Mine);
}

#[test]
fn cell_label_for_every_class() {
    let ring = [(0, 0), (1, 0), (2, 0), (0, 1), (2, 1), (0, 2), (1, 2), (2, 2)];
    let mut board = Board::with_mines(5, 3, &ring).unwrap();
    assert_eq!(board.cell_label(1, 1), "\u{25A0}");
    board.toggle_flag(0, 0);
    assert_eq!(board.cell_label(0, 0), "\u{1F6A9}");
    board.reveal_cell(1, 1);
    assert_eq!(board.cell_label(1, 1), "8");
    board.reveal_cell(3, 0);
    assert_eq!(board.cell_label(3, 0), "2");
    board.reveal_cell(3, 1);
    assert_eq!(board.cell_label(3, 1), "3");
    board.reveal_cell(2, 1);
    assert_eq!(board.cell_label(2, 1), "\u{1F4A3}");
    assert_eq!(board.cell_label(0, 0), "\u{1F6A9}");
    assert_eq!(board.cell_label(4, 1), "\u{25A0}");
    board.reveal_all();
    assert_eq!(board.cell_label(0, 0), "\u{1F4A3}");
    assert_eq!(board.cell_label(4, 1), " ");
    assert_eq!(board.cell_label(4, 0), " ");
    assert_eq!(board.cell_label(3, 2), "2");
}

#[test]
fn cell_label_for_every_number() {
    // Column 1 holds the cell under test; the mines around it grow from 1 to 8.
    let around = [(0, 0), (1, 0), (2, 0), (0, 1), (2, 1), (0, 2), (1, 2), (2, 2)];
    for n in 1..=8usize {
        let mut board = Board::with_mines(3, 3, &around[..n]).unwrap();
        assert_eq!(board.cell(1, 1).unwrap().neighbor_mines as usize, n);
        board.reveal_cell(1, 1);
        assert_eq!(board.cell_display(1, 1), CellDisplay::Number(n as u8));
        assert_eq!(board.cell_label(1, 1), format!("{}", n));
        assert_eq!(board.cell_glyph(1, 1), char::from_digit(n as u32, 10).unwrap());
    }
}

#[test]
fn cell_glyph_for_every_class() {
    let mut board = Board::with_mines(4, 1, &[(0, 0)]).unwrap();
    assert_eq!(board.cell_glyph(0, 0), '#');
    board.toggle_flag(0, 0);
    assert_eq!(board.cell_glyph(0, 0), 'F');
    board.reveal_cell(1, 0);
    assert_eq!(board.cell_glyph(1, 0), '1');
    board.reveal_cell(3, 0);
    assert_eq!(board.cell_glyph(3, 0), ' ');
    board.reveal_all();
    assert_eq!(board.cell_glyph(0, 0), '*');
}
