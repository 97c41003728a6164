use minesweeper_core::board::{Board, BoardError, GameState};
use minesweeper_core::cell::{BoardCell, BoardCellState, MINE_VALUE};
use minesweeper_core::solver::Solver;

fn grid_snapshot(b: &Board) -> Vec<Vec<(BoardCellState, u8)>> {
    b.get_board_cells()
        .iter()
        .map(|row| row.iter().map(|c| (c.state(), c.value())).collect())
        .collect()
}

fn count_cells(b: &Board, pred: impl Fn(&BoardCell) -> bool) -> usize {
    b.get_board_cells()
        .iter()
        .map(|row| row.iter().filter(|c| pred(c)).count())
        .sum()
}

fn find_hidden_mine(b: &Board) -> Option<(usize, usize)> {
    let cells = b.get_board_cells();
    for (i, row) in cells.iter().enumerate() {
        for (j, c) in row.iter().enumerate() {
            if c.value() == MINE_VALUE && c.state() == BoardCellState::Blank {
                return Some((i, j));
            }
        }
    }
    None
}

#[test]
fn new_board_is_blank_and_in_progress() {
    let b = Board::new(9, 9, 10);
    assert_eq!(b.game_state, GameState::InProgress);
    assert_eq!(b.get_flagged_cells(), 0);
    assert_eq!(b.get_board_cells().len(), 9);
    for row in b.get_board_cells() {
        assert_eq!(row.len(), 9);
        for c in row {
            assert_eq!(c.state(), BoardCellState::Blank);
            assert_eq!(c.value(), 0);
        }
    }
    assert_eq!(b.get_display_time(), 0);
}

#[test]
fn first_click_neighborhood_is_mine_free() {
    let mut b = Board::new(9, 9, 10);
    assert!(b.click(4, 4).is_ok());
    let cells = b.get_board_cells();
    for i in 3..=5 {
        for j in 3..=5 {
            assert_ne!(cells[i][j].value(), MINE_VALUE);
        }
    }
    // a first click can never lose; a freak placement may win at once
    assert_ne!(b.game_state, GameState::Lost);
    assert!(count_cells(&b, |c| c.state() == BoardCellState::Discovered) >= 1);
    assert_eq!(count_cells(&b, |c| c.value() == MINE_VALUE), 10);
}

#[test]
fn first_click_in_corner_is_safe() {
    let mut b = Board::new(4, 4, 10);
    assert!(b.click(0, 0).is_ok());
    let cells = b.get_board_cells();
    for i in 0..=1 {
        for j in 0..=1 {
            assert_ne!(cells[i][j].value(), MINE_VALUE);
        }
    }
    assert_eq!(count_cells(&b, |c| c.value() == MINE_VALUE), 10);
}

#[test]
fn one_by_one_board_with_no_mines_is_won_at_once() {
    let mut b = Board::new(1, 1, 0);
    assert!(b.click(0, 0).is_ok());
    assert_eq!(b.game_state, GameState::Won);
    assert_eq!(
        b.get_board_cells()[0][0].state(),
        BoardCellState::Discovered
    );
}

#[test]
fn zero_mine_board_cascades_to_a_win() {
    let mut b = Board::new(3, 4, 0);
    assert!(b.click(1, 1).is_ok());
    assert_eq!(b.game_state, GameState::Won);
    assert_eq!(
        count_cells(&b, |c| c.state() == BoardCellState::Discovered),
        12
    );
}

#[test]
fn clicking_a_mine_loses_and_explodes_exactly_one_cell() {
    let mut b = Board::new(9, 9, 10);
    assert!(b.click(4, 4).is_ok());
    assert_ne!(b.game_state, GameState::Lost);
    if b.game_state != GameState::InProgress {
        // a freak placement let the first click win; nothing left to test
        return;
    }
    let (mi, mj) = find_hidden_mine(&b).expect("ten mines were placed");
    assert!(b.click(mi, mj).is_ok());
    assert_eq!(b.game_state, GameState::Lost);
    assert_eq!(
        count_cells(&b, |c| c.state() == BoardCellState::Exploded),
        1
    );
    assert_eq!(
        b.get_board_cells()[mi][mj].state(),
        BoardCellState::Exploded
    );
    // every other mine stays hidden until update() reconciles the board
    assert_eq!(
        count_cells(&b, |c| c.value() == MINE_VALUE
            && c.state() != BoardCellState::Exploded
            && c.state() != BoardCellState::Blank),
        0
    );
}

#[test]
fn update_reconciles_a_lost_board() {
    let mut b = Board::new(9, 9, 10);
    b.click(4, 4).unwrap();
    if b.game_state != GameState::InProgress {
        return;
    }
    let (mi, mj) = find_hidden_mine(&b).expect("ten mines were placed");
    b.click(mi, mj).unwrap();
    assert_eq!(b.game_state, GameState::Lost);
    b.update();
    let cells = b.get_board_cells();
    for row in cells {
        for c in row {
            if c.value() == MINE_VALUE {
                assert!(
                    c.state() == BoardCellState::Exploded
                        || c.state() == BoardCellState::Discovered
                );
            } else {
                assert_eq!(c.state(), BoardCellState::Discovered);
            }
        }
    }
    assert_eq!(
        count_cells(&b, |c| c.state() == BoardCellState::Exploded),
        1
    );
}

#[test]
fn update_is_idempotent_in_a_terminal_state() {
    let mut b = Board::new(9, 9, 10);
    b.click(4, 4).unwrap();
    if b.game_state != GameState::InProgress {
        return;
    }
    let (mi, mj) = find_hidden_mine(&b).expect("ten mines were placed");
    b.click(mi, mj).unwrap();
    b.update();
    let first = grid_snapshot(&b);
    let t1 = b.get_display_time();
    b.update();
    let second = grid_snapshot(&b);
    let t2 = b.get_display_time();
    assert_eq!(first, second);
    assert_eq!(t1, t2);
}

#[test]
fn update_shows_mines_flagged_on_a_won_board() {
    let mut b = Board::new(1, 1, 0);
    b.click(0, 0).unwrap();
    assert_eq!(b.game_state, GameState::Won);
    b.update();
    assert_eq!(
        b.get_board_cells()[0][0].state(),
        BoardCellState::Discovered
    );
    let snap = grid_snapshot(&b);
    b.update();
    assert_eq!(snap, grid_snapshot(&b));
}

#[test]
fn update_leaves_a_running_board_alone() {
    let mut b = Board::new(9, 9, 10);
    b.click(4, 4).unwrap();
    let before = grid_snapshot(&b);
    b.update();
    assert_eq!(before, grid_snapshot(&b));
    assert_eq!(b.game_state, GameState::InProgress);
}

#[test]
fn full_flag_cycle_restores_the_counter() {
    let mut b = Board::new(9, 9, 10);
    // the first flag activates the board and flags the cell
    assert!(b.flag(0, 0).is_ok());
    assert_eq!(b.get_flagged_cells(), 1);
    // a full cycle on another cell leaves the counter where it began
    let before = b.get_flagged_cells();
    b.flag(5, 5).unwrap();
    b.flag(5, 5).unwrap();
    b.flag(5, 5).unwrap();
    assert_eq!(b.get_flagged_cells(), before);
    assert_eq!(
        b.get_board_cells()[5][5].state(),
        BoardCellState::Blank
    );
}

#[test]
fn flag_steps_through_flagged_and_question() {
    let mut b = Board::new(9, 9, 10);
    b.click(4, 4).unwrap();
    let before = b.get_flagged_cells();
    // pick a still-hidden cell
    let (i, j) = {
        let cells = b.get_board_cells();
        let mut found = (0usize, 0usize);
        'outer: for i in 0..9 {
            for j in 0..9 {
                if cells[i][j].state() == BoardCellState::Blank {
                    found = (i, j);
                    break 'outer;
                }
            }
        }
        found
    };
    b.flag(i, j).unwrap();
    assert_eq!(b.get_board_cells()[i][j].state(), BoardCellState::Flagged);
    assert_eq!(b.get_flagged_cells(), before + 1);
    b.flag(i, j).unwrap();
    assert_eq!(b.get_board_cells()[i][j].state(), BoardCellState::Question);
    assert_eq!(b.get_flagged_cells(), before + 1);
    b.flag(i, j).unwrap();
    assert_eq!(b.get_board_cells()[i][j].state(), BoardCellState::Blank);
    assert_eq!(b.get_flagged_cells(), before);
}

#[test]
fn out_of_range_coordinates_are_refused() {
    let mut b = Board::new(9, 9, 10);
    assert_eq!(b.click(9, 0), Err(BoardError::InvalidCoordinate));
    assert_eq!(b.click(0, 9), Err(BoardError::InvalidCoordinate));
    assert_eq!(b.flag(10, 10), Err(BoardError::InvalidCoordinate));
    // the board is untouched
    assert_eq!(b.game_state, GameState::InProgress);
    assert_eq!(b.get_flagged_cells(), 0);
    assert_eq!(
        count_cells(&b, |c| c.state() == BoardCellState::Blank),
        81
    );
}

#[test]
fn a_finished_game_ignores_further_moves() {
    let mut b = Board::new(1, 1, 0);
    b.click(0, 0).unwrap();
    assert_eq!(b.game_state, GameState::Won);
    let snap = grid_snapshot(&b);
    assert!(b.click(0, 0).is_ok());
    assert!(b.flag(0, 0).is_ok());
    assert_eq!(b.game_state, GameState::Won);
    assert_eq!(snap, grid_snapshot(&b));
}

#[test]
fn flag_on_a_discovered_cell_leaves_the_counter_alone() {
    let mut b = Board::new(9, 9, 10);
    b.click(4, 4).unwrap();
    assert_eq!(
        b.get_board_cells()[4][4].state(),
        BoardCellState::Discovered
    );
    let before = b.get_flagged_cells();
    b.flag(4, 4).unwrap();
    assert_eq!(b.get_flagged_cells(), before);
    assert_eq!(
        b.get_board_cells()[4][4].state(),
        BoardCellState::Discovered
    );
}

#[test]
fn adjacency_values_count_neighboring_mines() {
    let mut b = Board::new(9, 9, 10);
    b.click(4, 4).unwrap();
    let cells = b.get_board_cells();
    for i in 0..9usize {
        for j in 0..9usize {
            if cells[i][j].value() == MINE_VALUE {
                continue;
            }
            let mut expected = 0;
            for di in -1i32..=1 {
                for dj in -1i32..=1 {
                    let ni = i as i32 + di;
                    let nj = j as i32 + dj;
                    if 0 <= ni && ni < 9 && 0 <= nj && nj < 9 {
                        if cells[ni as usize][nj as usize].value() == MINE_VALUE {
                            expected += 1;
                        }
                    }
                }
            }
            assert_eq!(cells[i][j].value() as i32, expected);
        }
    }
}

#[test]
fn won_board_discovered_plus_mines_covers_the_grid() {
    let mut b = Board::new(2, 2, 0);
    b.click(0, 0).unwrap();
    assert_eq!(b.game_state, GameState::Won);
    let discovered = count_cells(&b, |c| c.state() == BoardCellState::Discovered);
    assert_eq!(discovered + b.mines, b.rows * b.cols);
}

#[test]
fn solver_snapshot_matches_the_grid() {
    let mut b = Board::new(3, 3, 0);
    b.click(1, 1).unwrap();
    let mut s = Solver::from_grid_snapshot(b.get_board_cells());
    assert!(!s.running);
    s.start();
    assert!(s.running);
    assert_eq!(s.snapshot.len(), 3);
    for (row, orig) in s.snapshot.iter().zip(b.get_board_cells().iter()) {
        for (c, o) in row.iter().zip(orig.iter()) {
            assert_eq!(c.state(), o.state());
            assert_eq!(c.value(), o.value());
        }
    }
}

#[test]
fn start_places_mines_outside_the_shifted_exclusion_zone() {
    let mut b = Board::new(9, 9, 10);
    b.start(4, 4, true);
    assert_eq!(count_cells(&b, |c| c.value() == MINE_VALUE), 10);
    assert_eq!(count_cells(&b, |c| c.state() == BoardCellState::Blank), 81);
    let cells = b.get_board_cells();
    for i in 3..=5 {
        for j in 3..=5 {
            assert_ne!(cells[i][j].value(), MINE_VALUE);
        }
    }
}

#[test]
fn redundant_activation_changes_nothing() {
    let mut b = Board::new(9, 9, 10);
    b.start(4, 4, true);
    let snap = grid_snapshot(&b);
    b.start(0, 0, true);
    assert_eq!(snap, grid_snapshot(&b));
    assert_eq!(b.game_state, GameState::InProgress);
}

#[test]
fn display_time_is_frozen_once_the_game_ends() {
    let mut b = Board::new(1, 1, 0);
    b.click(0, 0).unwrap();
    assert_eq!(b.game_state, GameState::Won);
    let t1 = b.get_display_time();
    let t2 = b.get_display_time();
    assert_eq!(t1, t2);
    b.update();
    assert_eq!(b.get_display_time(), t1);
}

#[test]
fn first_flag_neighborhood_is_mine_free_too() {
    let mut b = Board::new(9, 9, 10);
    assert!(b.flag(4, 4).is_ok());
    let cells = b.get_board_cells();
    for i in 3..=5 {
        for j in 3..=5 {
            assert_ne!(cells[i][j].value(), MINE_VALUE);
        }
    }
    assert_eq!(count_cells(&b, |c| c.value() == MINE_VALUE), 10);
    assert_eq!(b.get_flagged_cells(), 1);
}
