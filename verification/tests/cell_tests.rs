use minesweeper_core::cell::{BoardCell, BoardCellState, MINE_VALUE};

#[test]
fn from_char_digit_round_trip() {
    let c = BoardCell::from_char('3');
    assert_eq!(c.state(), BoardCellState::Discovered);
    assert_eq!(c.value(), 3);
}

#[test]
fn from_char_mine_round_trip() {
    let c = BoardCell::from_char('m');
    assert_eq!(c.state(), BoardCellState::Blank);
    assert_eq!(c.value(), MINE_VALUE);
    assert_eq!(c.value(), 15);
}

#[test]
fn from_char_hidden_safe() {
    let c = BoardCell::from_char('?');
    assert_eq!(c.state(), BoardCellState::Blank);
    assert_eq!(c.value(), 0);
}

#[test]
fn from_char_other() {
    let c = BoardCell::from_char('x');
    assert_eq!(c.state(), BoardCellState::Other);
    assert_eq!(c.value(), 0);
    let c = BoardCell::from_char('\u{0663}');
    assert_eq!(c.state(), BoardCellState::Other);
}

#[test]
fn new_cell_is_hidden_and_safe() {
    let c = BoardCell::new();
    assert_eq!(c.state(), BoardCellState::Blank);
    assert_eq!(c.value(), 0);
    let d = BoardCell::default();
    assert_eq!(d.state(), BoardCellState::Blank);
    assert_eq!(d.value(), 0);
}

#[test]
fn click_reveals_blank_and_signals_cascade_on_zero() {
    let mut c = BoardCell::from_raw_parts(0, BoardCellState::Blank);
    assert!(c.click());
    assert_eq!(c.state(), BoardCellState::Discovered);
    assert_eq!(c.value(), 0);

    let mut c = BoardCell::from_raw_parts(3, BoardCellState::Blank);
    assert!(!c.click());
    assert_eq!(c.state(), BoardCellState::Discovered);
    assert_eq!(c.value(), 3);
}

#[test]
fn click_leaves_non_blank_cells_alone() {
    let mut c = BoardCell::from_raw_parts(0, BoardCellState::Discovered);
    assert!(!c.click());
    assert_eq!(c.state(), BoardCellState::Discovered);

    let mut c = BoardCell::from_raw_parts(2, BoardCellState::Flagged);
    assert!(!c.click());
    assert_eq!(c.state(), BoardCellState::Flagged);
    assert_eq!(c.value(), 2);
}

#[test]
fn flag_cycle_returns_counter_to_start() {
    let mut c = BoardCell::new();
    let mut counter: i16 = 7;
    let d1 = c.flag();
    assert_eq!(c.state(), BoardCellState::Flagged);
    assert_eq!(d1, 1);
    let d2 = c.flag();
    assert_eq!(c.state(), BoardCellState::Question);
    assert_eq!(d2, 0);
    let d3 = c.flag();
    assert_eq!(c.state(), BoardCellState::Blank);
    assert_eq!(d3, -1);
    counter += (d1 + d2 + d3) as i16;
    assert_eq!(counter, 7);
}

#[test]
fn flag_is_noop_on_discovered() {
    let mut c = BoardCell::from_raw_parts(4, BoardCellState::Discovered);
    assert_eq!(c.flag(), 0);
    assert_eq!(c.state(), BoardCellState::Discovered);
    assert_eq!(c.value(), 4);
}

#[test]
fn display_equality_is_relaxed_on_hidden_tags() {
    let blank = BoardCell::from_raw_parts(0, BoardCellState::Blank);
    let flagged = BoardCell::from_raw_parts(5, BoardCellState::Flagged);
    let question = BoardCell::from_raw_parts(1, BoardCellState::Question);
    assert!(blank == flagged);
    assert!(flagged == question);
    assert!(question == blank);

    let d3 = BoardCell::from_raw_parts(3, BoardCellState::Discovered);
    let d3b = BoardCell::from_raw_parts(3, BoardCellState::Discovered);
    let d2 = BoardCell::from_raw_parts(2, BoardCellState::Discovered);
    assert!(d3 == d3b);
    assert!(d3 != d2);
    assert!(d3 != blank);

    let ex = BoardCell::from_raw_parts(15, BoardCellState::Exploded);
    let ex2 = BoardCell::from_raw_parts(15, BoardCellState::Exploded);
    assert!(ex != ex2);
}
