use minesweeper::board::Board;
use minesweeper::cell::Cell;

fn cells(board: &Board) -> Vec<Cell> {
    let mut all = Vec::new();
    for y in 0..board.height() {
        for x in 0..board.width() {
            all.push(board.cell(x, y).unwrap());
        }
    }
    all
}

fn revealed(board: &Board) -> Vec<Vec<u8>> {
    (0..board.height())
        .map(|y| {
            (0..board.width())
                .map(|x| if board.cell(x, y).unwrap().is_revealed { 1 } else { 0 })
                .collect()
        })
        .collect()
}

fn state(board: &Board) -> (Vec<Cell>, bool, bool) {
    (cells(board), board.is_game_over(), board.did_win())
}

#[test]
fn one_cell_board_is_won_by_one_reveal() {
    let mut board = Board::new(1, 1, 0).unwrap();
    assert!(!board.is_game_over());
    assert!(!board.check_win());
    board.reveal_cell(0, 0);
    assert!(board.cell(0, 0).unwrap().is_revealed);
    assert!(board.check_win());
    assert!(board.is_game_over());
    assert!(board.did_win());
}

#[test]
fn revealing_a_mine_loses_without_flood() {
    let mut board = Board::with_mines(4, 4, &[(1, 1)]).unwrap();
    board.reveal_cell(1, 1);
    assert!(board.is_game_over());
    assert!(!board.did_win());
    assert_eq!(
        revealed(&board),
        vec![vec![0, 0, 0, 0], vec![0, 1, 0, 0], vec![0, 0, 0, 0], vec![0, 0, 0, 0]]
    );
    assert!(!board.check_win());
}

#[test]
fn revealing_a_numbered_cell_uncovers_it_alone() {
    let mut board = Board::with_mines(4, 4, &[(1, 1)]).unwrap();
    board.reveal_cell(0, 0);
    assert!(!board.is_game_over());
    assert!(!board.did_win());
    assert_eq!(
        revealed(&board),
        vec![vec![1, 0, 0, 0], vec![0, 0, 0, 0], vec![0, 0, 0, 0], vec![0, 0, 0, 0]]
    );
}

#[test]
fn flood_uncovers_the_region_and_its_border() {
    // Mines in column 2: the flood from the left stops at column 1.
    let wall = [(2, 0), (2, 1), (2, 2), (2, 3)];
    let mut board = Board::with_mines(5, 4, &wall).unwrap();
    board.reveal_cell(0, 0);
    assert_eq!(
        revealed(&board),
        vec![
            vec![1, 1, 0, 0, 0],
            vec![1, 1, 0, 0, 0],
            vec![1, 1, 0, 0, 0],
            vec![1, 1, 0, 0, 0],
        ]
    );
    assert!(!board.is_game_over());
    board.reveal_cell(4, 3);
    assert_eq!(
        revealed(&board),
        vec![
            vec![1, 1, 0, 1, 1],
            vec![1, 1, 0, 1, 1],
            vec![1, 1, 0, 1, 1],
            vec![1, 1, 0, 1, 1],
        ]
    );
    assert!(board.is_game_over());
    assert!(board.did_win());
}

#[test]
fn flood_goes_round_corners_and_diagonals() {
    let mines = [(1, 0), (1, 1), (1, 2), (1, 3), (3, 5), (5, 3)];
    let mut board = Board::with_mines(6, 6, &mines).unwrap();
    board.reveal_cell(0, 5);
    assert_eq!(
        revealed(&board),
        vec![
            vec![0, 0, 0, 0, 0, 0],
            vec![0, 0, 0, 0, 0, 0],
            vec![0, 0, 0, 0, 0, 0],
            vec![0, 0, 0, 0, 0, 0],
            vec![1, 1, 1, 0, 0, 0],
            vec![1, 1, 1, 0, 0, 0],
        ]
    );
    board.reveal_cell(5, 0);
    assert_eq!(
        revealed(&board),
        vec![
            vec![0, 0, 1, 1, 1, 1],
            vec![0, 0, 1, 1, 1, 1],
            vec![0, 0, 1, 1, 1, 1],
            vec![0, 0, 1, 1, 1, 0],
            vec![1, 1, 1, 1, 1, 0],
            vec![1, 1, 1, 0, 0, 0],
        ]
    );
    for cell in cells(&board) {
        assert!(!(cell.is_mine && cell.is_revealed));
    }
    assert!(!board.is_game_over());
}

#[test]
fn flood_stops_at_flags() {
    let mut board = Board::with_mines(5, 1, &[(4, 0)]).unwrap();
    board.toggle_flag(2, 0);
    board.reveal_cell(0, 0);
    assert_eq!(revealed(&board), vec![vec![1, 1, 0, 0, 0]]);
    assert!(board.cell(2, 0).unwrap().is_flagged);
    assert!(!board.is_game_over());
    // Without the flag the cell can be revealed, and the flood goes on from it.
    board.toggle_flag(2, 0);
    board.reveal_cell(2, 0);
    assert_eq!(revealed(&board), vec![vec![1, 1, 1, 1, 0]]);
    assert!(board.is_game_over());
    assert!(board.did_win());
}

#[test]
fn flood_passes_a_flag_where_there_is_a_way_round() {
    let mut board = Board::with_mines(3, 3, &[]).unwrap();
    board.toggle_flag(1, 1);
    board.reveal_cell(0, 0);
    assert_eq!(revealed(&board), vec![vec![1, 1, 1], vec![1, 0, 1], vec![1, 1, 1]]);
    assert!(board.cell(1, 1).unwrap().is_flagged);
    assert!(!board.is_game_over());
    assert!(!board.did_win());
    board.toggle_flag(1, 1);
    board.reveal_cell(1, 1);
    assert!(board.is_game_over());
    assert!(board.did_win());
}

#[test]
fn board_without_mines_is_won_by_the_first_reveal() {
    let mut board = Board::new(7, 5, 0).unwrap();
    assert!(!board.check_win());
    board.reveal_cell(3, 2);
    for cell in cells(&board) {
        assert!(cell.is_revealed);
        assert!(!cell.is_mine);
    }
    assert!(board.check_win());
    assert!(board.is_game_over());
    assert!(board.did_win());
}

#[test]
fn board_without_mines_is_never_lost() {
    let mut board = Board::with_mines(3, 3, &[]).unwrap();
    for y in 0..3 {
        for x in 0..3 {
            board.toggle_flag(x, y);
        }
    }
    // Every cell is flagged, so each reveal uncovers one cell and no more.
    let mut moves = 0;
    for y in 0..3 {
        for x in 0..3 {
            board.toggle_flag(x, y);
            board.reveal_cell(x, y);
            assert!(!(board.is_game_over() && !board.did_win()));
            moves += 1;
            assert_eq!(board.check_win(), moves == 9);
            assert_eq!(board.is_game_over(), moves == 9);
            assert_eq!(board.did_win(), moves == 9);
        }
    }
    assert!(board.did_win());
}

#[test]
fn win_comes_with_the_last_safe_cell() {
    let mut board = Board::with_mines(2, 2, &[(0, 0)]).unwrap();
    assert!(!board.check_win());
    board.reveal_cell(1, 0);
    assert!(!board.check_win());
    assert!(!board.is_game_over());
    board.reveal_cell(0, 1);
    assert!(!board.check_win());
    assert!(!board.is_game_over());
    board.reveal_cell(1, 1);
    assert!(board.check_win());
    assert!(board.is_game_over());
    assert!(board.did_win());
    assert!(!board.cell(0, 0).unwrap().is_revealed);
}

#[test]
fn win_does_not_need_flags_on_mines() {
    let mut with_flag = Board::with_mines(2, 1, &[(0, 0)]).unwrap();
    with_flag.toggle_flag(0, 0);
    with_flag.reveal_cell(1, 0);
    assert!(with_flag.did_win());
    let mut without_flag = Board::with_mines(2, 1, &[(0, 0)]).unwrap();
    without_flag.reveal_cell(1, 0);
    assert!(without_flag.did_win());
}

#[test]
fn random_game_is_won_by_revealing_every_safe_cell() {
    for _ in 0..10 {
        let mut board = Board::new(9, 9, 10).unwrap();
        let mut safe = Vec::new();
        for y in 0..9 {
            for x in 0..9 {
                if !board.cell(x, y).unwrap().is_mine {
                    safe.push((x, y));
                }
            }
        }
        assert_eq!(safe.len(), 71);
        for &(x, y) in &safe {
            let done = safe.iter().all(|&(a, b)| board.cell(a, b).unwrap().is_revealed);
            assert_eq!(board.is_game_over(), done);
            assert_eq!(board.check_win(), done);
            board.reveal_cell(x, y);
            assert!(board.cell(x, y).unwrap().is_revealed);
        }
        assert!(board.check_win());
        assert!(board.is_game_over());
        assert!(board.did_win());
        for cell in cells(&board) {
            assert_eq!(cell.is_revealed, !cell.is_mine);
        }
    }
}

#[test]
fn revealing_a_flagged_cell_does_nothing() {
    let mut board = Board::with_mines(3, 3, &[(2, 2)]).unwrap();
    board.toggle_flag(0, 0);
    let before = state(&board);
    board.reveal_cell(0, 0);
    assert_eq!(state(&board), before);
    let cell = board.cell(0, 0).unwrap();
    assert!(cell.is_flagged);
    assert!(!cell.is_revealed);
}

#[test]
fn revealing_a_flagged_mine_does_nothing() {
    let mut board = Board::with_mines(3, 3, &[(2, 2)]).unwrap();
    board.toggle_flag(2, 2);
    let before = state(&board);
    board.reveal_cell(2, 2);
    assert_eq!(state(&board), before);
    assert!(!board.is_game_over());
}

#[test]
fn revealing_a_revealed_cell_does_nothing() {
    let mut board = Board::with_mines(3, 3, &[(1, 1)]).unwrap();
    board.reveal_cell(0, 0);
    let before = state(&board);
    board.reveal_cell(0, 0);
    assert_eq!(state(&board), before);
}

#[test]
fn revealing_outside_the_grid_does_nothing() {
    let mut board = Board::with_mines(3, 2, &[(1, 1)]).unwrap();
    let before = state(&board);
    board.reveal_cell(3, 0);
    board.reveal_cell(0, 2);
    board.reveal_cell(3, 2);
    board.reveal_cell(usize::MAX, 0);
    board.reveal_cell(0, usize::MAX);
    board.reveal_cell(usize::MAX, usize::MAX);
    assert_eq!(state(&board), before);
}

#[test]
fn toggling_a_flag_twice_takes_it_back() {
    let mut board = Board::with_mines(3, 3, &[(1, 1)]).unwrap();
    let before = state(&board);
    board.toggle_flag(2, 1);
    assert!(board.cell(2, 1).unwrap().is_flagged);
    assert!(!board.cell(2, 1).unwrap().is_revealed);
    board.toggle_flag(2, 1);
    assert!(!board.cell(2, 1).unwrap().is_flagged);
    assert_eq!(state(&board), before);
}

#[test]
fn toggling_a_flag_changes_one_cell() {
    let mut board = Board::with_mines(3, 3, &[(1, 1)]).unwrap();
    let before = cells(&board);
    board.toggle_flag(1, 2);
    let after = cells(&board);
    for i in 0..9 {
        if i == 7 {
            assert_eq!(after[i], Cell { is_flagged: true, ..before[i] });
        } else {
            assert_eq!(after[i], before[i]);
        }
    }
    assert!(!board.is_game_over());
}

#[test]
fn flagging_a_revealed_cell_does_nothing() {
    let mut board = Board::with_mines(3, 3, &[(1, 1)]).unwrap();
    board.reveal_cell(0, 0);
    let before = state(&board);
    board.toggle_flag(0, 0);
    assert_eq!(state(&board), before);
}

#[test]
fn flagging_outside_the_grid_does_nothing() {
    let mut board = Board::with_mines(3, 2, &[(1, 1)]).unwrap();
    let before = state(&board);
    board.toggle_flag(3, 0);
    board.toggle_flag(0, 2);
    board.toggle_flag(usize::MAX, usize::MAX);
    assert_eq!(state(&board), before);
}

#[test]
fn reveal_all_uncovers_every_cell_and_keeps_the_outcome() {
    let mut board = Board::with_mines(3, 3, &[(0, 0), (2, 2)]).unwrap();
    board.toggle_flag(2, 2);
    board.toggle_flag(1, 0);
    board.reveal_cell(0, 0);
    assert!(board.is_game_over());
    assert!(!board.did_win());
    let before = cells(&board);
    board.reveal_all();
    let after = cells(&board);
    for i in 0..9 {
        assert_eq!(after[i], Cell { is_revealed: true, ..before[i] });
    }
    assert!(after[8].is_flagged && after[8].is_mine);
    assert!(board.is_game_over());
    assert!(!board.did_win());
}

#[test]
fn reveal_all_during_a_game_does_not_end_it() {
    let mut board = Board::with_mines(3, 3, &[(0, 0)]).unwrap();
    board.reveal_all();
    assert!(!board.is_game_over());
    assert!(!board.did_win());
    assert!(board.check_win());
    for cell in cells(&board) {
        assert!(cell.is_revealed);
    }
}

#[test]
fn nothing_moves_once_the_game_is_lost() {
    let mut board = Board::with_mines(3, 3, &[(0, 0)]).unwrap();
    board.reveal_cell(0, 0);
    assert!(board.is_game_over());
    let before = state(&board);
    board.reveal_cell(2, 2);
    board.toggle_flag(1, 1);
    board.reveal_cell(0, 1);
    assert_eq!(state(&board), before);
    assert!(!board.did_win());
}

#[test]
fn nothing_moves_once_the_game_is_won() {
    let mut board = Board::with_mines(3, 1, &[(0, 0)]).unwrap();
    board.reveal_cell(2, 0);
    board.reveal_cell(1, 0);
    assert!(board.did_win());
    let before = state(&board);
    board.reveal_cell(0, 0);
    board.toggle_flag(0, 0);
    assert_eq!(state(&board), before);
    assert!(board.did_win());
    assert!(!board.cell(0, 0).unwrap().is_revealed);
}

#[test]
fn flood_reveal_starts_around_the_given_cell() {
    let mut board = Board::with_mines(4, 1, &[(3, 0)]).unwrap();
    board.flood_reveal(0, 0);
    // The start is hidden: the flood comes back to it from the cell beside it.
    assert_eq!(revealed(&board), vec![vec![1, 1, 1, 0]]);
    assert!(!board.is_game_over());
    assert!(!board.did_win());
}

#[test]
fn flood_reveal_from_a_numbered_cell_uncovers_what_is_around_it() {
    let mut board = Board::with_mines(3, 3, &[(0, 0), (2, 0), (0, 2), (2, 2)]).unwrap();
    board.toggle_flag(2, 2);
    board.flood_reveal(1, 1);
    assert_eq!(revealed(&board), vec![vec![1, 1, 1], vec![1, 0, 1], vec![1, 1, 0]]);
    assert!(!board.is_game_over());
}

#[test]
fn flood_reveal_from_beside_the_grid_uncovers_the_cells_around_it() {
    let mut board = Board::with_mines(2, 1, &[]).unwrap();
    board.flood_reveal(2, 0);
    assert_eq!(revealed(&board), vec![vec![1, 1]]);
    assert!(!board.is_game_over());

    let mut board = Board::with_mines(3, 3, &[(1, 1)]).unwrap();
    board.flood_reveal(3, 0);
    assert_eq!(revealed(&board), vec![vec![0, 0, 1], vec![0, 0, 1], vec![0, 0, 0]]);
    board.flood_reveal(0, 3);
    assert_eq!(revealed(&board), vec![vec![0, 0, 1], vec![0, 0, 1], vec![1, 1, 0]]);
    board.flood_reveal(3, 3);
    assert_eq!(revealed(&board), vec![vec![0, 0, 1], vec![0, 0, 1], vec![1, 1, 1]]);
    assert!(!board.is_game_over());
    assert!(!board.did_win());
}

#[test]
fn flood_reveal_from_beside_the_grid_goes_on_from_empty_cells() {
    let mut board = Board::with_mines(4, 2, &[(0, 0)]).unwrap();
    board.flood_reveal(4, 1);
    assert_eq!(revealed(&board), vec![vec![0, 1, 1, 1], vec![0, 1, 1, 1]]);
}

#[test]
fn flood_reveal_from_far_off_the_grid_does_nothing() {
    let mut board = Board::with_mines(3, 3, &[(1, 1)]).unwrap();
    let before = state(&board);
    board.flood_reveal(4, 0);
    board.flood_reveal(0, 4);
    board.flood_reveal(4, 4);
    board.flood_reveal(usize::MAX, 0);
    board.flood_reveal(0, usize::MAX);
    board.flood_reveal(usize::MAX, usize::MAX);
    assert_eq!(state(&board), before);
}

#[test]
fn flood_covers_a_large_empty_board() {
    let mut board = Board::with_mines(120, 90, &[(119, 89)]).unwrap();
    board.reveal_cell(0, 0);
    let all = cells(&board);
    assert_eq!(all.iter().filter(|c| c.is_revealed).count(), 120 * 90 - 1);
    assert!(board.did_win());
}
