//! One cell of the grid: a display tag plus a small value. The value is an
//! adjacency count, or the reserved sentinel that marks a mine independently
//! of the display tag.

use vstd::prelude::*;

verus! {

/// The reserved cell value that marks a mine, whatever the display tag says.
pub const MINE_VALUE: u8 = 15;

/// Display tag of a cell.
#[derive(Debug, PartialEq, Eq, Structural, Clone, Copy)]
pub enum BoardCellState {
    Discovered,
    Blank,
    Flagged,
    Question,
    Exploded,
    Other,
}

/// A cell: its display tag and its value. The value is 0..=8 (count of
/// adjacent mines) on a settled board, or `MINE_VALUE` for a mine; cells
/// decoded from text may carry any value below 16.
#[derive(Clone, Copy)]
pub struct BoardCell {
    pub state: BoardCellState,
    pub value: u8,
}

impl BoardCell {
    /// The representation invariant: the value fits the four bits the
    /// original packed encoding reserved for it.
    pub open spec fn wf(self) -> bool {
        self.value < 16
    }

    /// A cell is a mine exactly when its value is the sentinel; the display
    /// tag plays no part in mine-ness.
    pub open spec fn is_mine(self) -> bool {
        self.value == MINE_VALUE
    }

    /// Display equality: the three hidden tags (Blank, Flagged, Question)
    /// compare equal to each other; Discovered cells compare equal only with
    /// identical value; nothing else compares equal.
    pub open spec fn like(self, other: BoardCell) -> bool {
        match (self.state, other.state) {
            (BoardCellState::Discovered, BoardCellState::Discovered) => self.value == other.value,
            (
                BoardCellState::Blank | BoardCellState::Flagged | BoardCellState::Question,
                BoardCellState::Blank | BoardCellState::Flagged | BoardCellState::Question,
            ) => true,
            _ => false,
        }
    }

    /// The tag after one flag-cycle step: Blank -> Flagged -> Question ->
    /// Blank; Discovered, Exploded and Other cells do not cycle.
    pub open spec fn cycled(self) -> BoardCell {
        match self.state {
            BoardCellState::Blank => BoardCell { state: BoardCellState::Flagged, ..self },
            BoardCellState::Flagged => BoardCell { state: BoardCellState::Question, ..self },
            BoardCellState::Question => BoardCell { state: BoardCellState::Blank, ..self },
            _ => self,
        }
    }

    /// The change a flag-cycle step applies to the flagged-cell counter:
    /// entering Flagged adds one, leaving Question back to Blank subtracts
    /// one, every other step leaves it alone.
    pub open spec fn flag_delta(self) -> int {
        match self.state {
            BoardCellState::Blank => 1,
            BoardCellState::Question => -1,
            _ => 0,
        }
    }

    /// Decode one character of a grid fixture: an ASCII digit gives a
    /// Discovered cell with that value, 'm' a hidden mine, '?' a hidden safe
    /// cell, and anything else an opaque Other cell.
    pub fn from_char(c: char) -> (r: Self)
        ensures
            r.wf(),
            ('0' <= c && c <= '9') ==> r == (BoardCell {
                state: BoardCellState::Discovered,
                value: (c as u8 - '0' as u8) as u8,
            }),
            c == 'm' ==> r == (BoardCell { state: BoardCellState::Blank, value: MINE_VALUE }),
            c == '?' ==> r == (BoardCell { state: BoardCellState::Blank, value: 0u8 }),
            !('0' <= c && c <= '9') && c != 'm' && c != '?' ==> r == (BoardCell {
                state: BoardCellState::Other,
                value: 0u8,
            }),
    {
        if '0' <= c && c <= '9' {
            let d = c as u8 - '0' as u8;
            Self::from_raw_parts(d, BoardCellState::Discovered)
        } else if c == 'm' {
            Self::from_raw_parts(MINE_VALUE, BoardCellState::Blank)
        } else if c == '?' {
            Self::from_raw_parts(0, BoardCellState::Blank)
        } else {
            Self::from_raw_parts(0, BoardCellState::Other)
        }
    }

    /// Build a cell from a tag and a value.
    pub fn from_raw_parts(value: u8, state: BoardCellState) -> (r: Self)
        requires
            value < 16,
        ensures
            r == (BoardCell { state, value }),
    {
        BoardCell { state, value }
    }

    /// A fresh cell: hidden and safe.
    pub fn new() -> (r: Self)
        ensures
            r == (BoardCell { state: BoardCellState::Blank, value: 0u8 }),
    {
        BoardCell { state: BoardCellState::Blank, value: 0 }
    }

    /// The display tag.
    pub fn state(&self) -> (r: BoardCellState)
        ensures
            r == self.state,
    {
        self.state
    }

    /// The raw value: an adjacency count, or the mine sentinel.
    pub fn value(&self) -> (r: u8)
        ensures
            r == self.value,
    {
        self.value
    }

    /// Reveal the cell: a Blank cell becomes Discovered, keeping its value;
    /// every other cell is left alone. Returns true exactly when a Blank
    /// cell with value zero was revealed — the signal that a cascade should
    /// continue through this cell's neighbors.
    pub fn click(&mut self) -> (continue_cascade: bool)
        ensures
            old(self).state == BoardCellState::Blank ==> *final(self) == (BoardCell {
                state: BoardCellState::Discovered,
                ..*old(self)
            }),
            old(self).state != BoardCellState::Blank ==> *final(self) == *old(self),
            continue_cascade == (old(self).state == BoardCellState::Blank && old(self).value == 0),
    {
        if self.state == BoardCellState::Blank {
            self.state = BoardCellState::Discovered;
            if self.value == 0 {
                return true;
            }
        }
        false
    }

    /// Advance the flag cycle one step and return the signed change to apply
    /// to the flagged-cell counter.
    pub fn flag(&mut self) -> (delta: i8)
        ensures
            *final(self) == old(self).cycled(),
            delta as int == old(self).flag_delta(),
    {
        match self.state {
            BoardCellState::Blank => {
                self.state = BoardCellState::Flagged;
                1
            },
            BoardCellState::Flagged => {
                self.state = BoardCellState::Question;
                0
            },
            BoardCellState::Question => {
                self.state = BoardCellState::Blank;
                -1
            },
            _ => 0,
        }
    }
}

impl Default for BoardCell {
    /// A fresh cell: hidden and safe.
    fn default() -> (r: Self)
        ensures
            r == (BoardCell { state: BoardCellState::Blank, value: 0u8 }),
    {
        BoardCell::new()
    }
}

impl PartialEq for BoardCell {
    /// Display equality, for diffing what is drawn: see `BoardCell::like`.
    fn eq(&self, other: &Self) -> (r: bool) {
        match (self.state, other.state) {
            (BoardCellState::Discovered, BoardCellState::Discovered) => self.value == other.value,
            (
                BoardCellState::Blank | BoardCellState::Flagged | BoardCellState::Question,
                BoardCellState::Blank | BoardCellState::Flagged | BoardCellState::Question,
            ) => true,
            _ => false,
        }
    }
}

impl vstd::std_specs::cmp::PartialEqSpecImpl for BoardCell {
    open spec fn obeys_eq_spec() -> bool {
        true
    }

    open spec fn eq_spec(&self, other: &BoardCell) -> bool {
        self.like(*other)
    }
}

/// A full flag cycle leaves both the cell and the flagged-cell counter where
/// they began: three steps from a Blank cell return it to Blank, and the
/// three counter deltas sum to zero.
pub proof fn lemma_flag_cycle_round_trip(c: BoardCell)
    requires
        c.state == BoardCellState::Blank,
    ensures
        c.cycled().cycled().cycled() == c,
        c.flag_delta() + c.cycled().flag_delta() + c.cycled().cycled().flag_delta() == 0,
{
}

} // verus!
