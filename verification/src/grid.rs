//! The grid of cells and the counting machinery over it: how many cells are
//! Discovered, how many mines sit next to a position, and single-cell writes.

use vstd::prelude::*;

use crate::cell::{BoardCell, BoardCellState, MINE_VALUE};

verus! {

/// A rows x cols matrix of cells, owned by a Board.
pub type BoardCells = Vec<Vec<BoardCell>>;

/// The grid as a sequence of rows of cells.
pub open spec fn view_grid(g: BoardCells) -> Seq<Seq<BoardCell>> {
    g@.map_values(|r: Vec<BoardCell>| r@)
}

/// The grid has `rows` rows of `cols` cells each, all of them well formed.
pub open spec fn grid_wf(g: Seq<Seq<BoardCell>>, rows: int, cols: int) -> bool {
    &&& g.len() == rows
    &&& forall|i: int| 0 <= i < rows ==> (#[trigger] g[i]).len() == cols
    &&& forall|i: int, j: int| 0 <= i < rows && 0 <= j < cols ==> (#[trigger] g[i][j]).wf()
}

/// One if the cell is shown Discovered, zero otherwise.
pub open spec fn disc_ind(c: BoardCell) -> int {
    if c.state == BoardCellState::Discovered {
        1
    } else {
        0
    }
}

/// How many cells of one row are shown Discovered.
pub open spec fn row_disc_count(r: Seq<BoardCell>) -> int
    decreases r.len(),
{
    if r.len() == 0 {
        0
    } else {
        row_disc_count(r.drop_last()) + disc_ind(r.last())
    }
}

/// How many cells of the grid are shown Discovered.
pub open spec fn disc_count(g: Seq<Seq<BoardCell>>) -> int
    decreases g.len(),
{
    if g.len() == 0 {
        0
    } else {
        disc_count(g.drop_last()) + row_disc_count(g.last())
    }
}

proof fn lemma_row_disc_update(r: Seq<BoardCell>, j: int, c: BoardCell)
    requires
        0 <= j < r.len(),
    ensures
        row_disc_count(r.update(j, c)) == row_disc_count(r) - disc_ind(r[j]) + disc_ind(c),
    decreases r.len(),
{
    let ru = r.update(j, c);
    if j == r.len() - 1 {
        assert(ru.drop_last() =~= r.drop_last());
    } else {
        assert(ru.drop_last() =~= r.drop_last().update(j, c));
        lemma_row_disc_update(r.drop_last(), j, c);
    }
}

/// Writing one cell moves the Discovered count by the difference of the two
/// cells' indicators.
pub proof fn lemma_grid_disc_update(g: Seq<Seq<BoardCell>>, i: int, j: int, c: BoardCell)
    requires
        0 <= i < g.len(),
        0 <= j < g[i].len(),
    ensures
        disc_count(g.update(i, g[i].update(j, c))) == disc_count(g) - disc_ind(g[i][j]) + disc_ind(
            c,
        ),
    decreases g.len(),
{
    let gu = g.update(i, g[i].update(j, c));
    if i == g.len() - 1 {
        assert(gu.drop_last() =~= g.drop_last());
        lemma_row_disc_update(g.last(), j, c);
    } else {
        assert(gu.drop_last() =~= g.drop_last().update(i, g.drop_last()[i].update(j, c)));
        lemma_grid_disc_update(g.drop_last(), i, j, c);
        assert(gu.last() == g.last());
    }
}

proof fn lemma_row_disc_bounds(r: Seq<BoardCell>)
    ensures
        0 <= row_disc_count(r) <= r.len(),
    decreases r.len(),
{
    if r.len() > 0 {
        lemma_row_disc_bounds(r.drop_last());
    }
}

/// The Discovered count lies between zero and the cell count of the grid.
pub proof fn lemma_grid_disc_bounds(g: Seq<Seq<BoardCell>>, cols: int)
    requires
        forall|i: int| 0 <= i < g.len() ==> (#[trigger] g[i]).len() == cols,
    ensures
        0 <= disc_count(g) <= g.len() * cols,
    decreases g.len(),
{
    if g.len() == 0 {
    } else {
        lemma_grid_disc_bounds(g.drop_last(), cols);
        lemma_row_disc_bounds(g.last());
        assert(g.len() * cols == (g.len() - 1) * cols + cols) by (nonlinear_arith);
    }
}

proof fn lemma_row_disc_zero(r: Seq<BoardCell>)
    requires
        forall|j: int| 0 <= j < r.len() ==> (#[trigger] r[j]).state != BoardCellState::Discovered,
    ensures
        row_disc_count(r) == 0,
    decreases r.len(),
{
    if r.len() > 0 {
        lemma_row_disc_zero(r.drop_last());
    }
}

/// A grid with no Discovered cell has a Discovered count of zero.
pub proof fn lemma_grid_disc_zero(g: Seq<Seq<BoardCell>>)
    requires
        forall|i: int, j: int|
            0 <= i < g.len() && 0 <= j < (#[trigger] g[i]).len() ==> (#[trigger] g[i][j]).state
                != BoardCellState::Discovered,
    ensures
        disc_count(g) == 0,
    decreases g.len(),
{
    if g.len() > 0 {
        lemma_grid_disc_zero(g.drop_last());
        lemma_row_disc_zero(g.last());
    }
}

/// One if position (i, j) is on the grid and holds a mine, zero otherwise.
pub open spec fn mine_ind(g: Seq<Seq<BoardCell>>, rows: int, cols: int, i: int, j: int) -> int {
    if 0 <= i < rows && 0 <= j < cols && g[i][j].is_mine() {
        1
    } else {
        0
    }
}

/// How many mines lie in the 3x3 neighborhood of (i, j), intersected with
/// the grid; the center counts too when it is itself a mine.
pub open spec fn adj_count(g: Seq<Seq<BoardCell>>, rows: int, cols: int, i: int, j: int) -> int {
    mine_ind(g, rows, cols, i - 1, j - 1) + mine_ind(g, rows, cols, i - 1, j) + mine_ind(
        g,
        rows,
        cols,
        i - 1,
        j + 1,
    ) + mine_ind(g, rows, cols, i, j - 1) + mine_ind(g, rows, cols, i, j) + mine_ind(
        g,
        rows,
        cols,
        i,
        j + 1,
    ) + mine_ind(g, rows, cols, i + 1, j - 1) + mine_ind(g, rows, cols, i + 1, j) + mine_ind(
        g,
        rows,
        cols,
        i + 1,
        j + 1,
    )
}

/// Write one cell of the grid.
pub(crate) fn set_cell(g: &mut BoardCells, i: usize, j: usize, c: BoardCell)
    requires
        i < view_grid(*old(g)).len(),
        j < view_grid(*old(g))[i as int].len(),
    ensures
        view_grid(*final(g)) == view_grid(*old(g)).update(
            i as int,
            view_grid(*old(g))[i as int].update(j as int, c),
        ),
{
    let row = &mut g[i];
    row[j] = c;
    proof {
        assert(view_grid(*g) =~~= view_grid(*old(g)).update(
            i as int,
            view_grid(*old(g))[i as int].update(j as int, c),
        ));
    }
}

/// Read one cell of the grid.
pub(crate) fn get_cell(g: &BoardCells, i: usize, j: usize) -> (c: BoardCell)
    requires
        i < view_grid(*g).len(),
        j < view_grid(*g)[i as int].len(),
    ensures
        c == view_grid(*g)[i as int][j as int],
{
    g[i][j]
}

/// Count the mines in the 3x3 neighborhood of (i, j), intersected with the
/// grid.
#[verifier::rlimit(100)]
pub(crate) fn count_adjacent_mines(g: &BoardCells, rows: usize, cols: usize, i: usize, j: usize) -> (cnt: u8)
    requires
        grid_wf(view_grid(*g), rows as int, cols as int),
        i < rows,
        j < cols,
    ensures
        cnt == adj_count(view_grid(*g), rows as int, cols as int, i as int, j as int),
        cnt <= 9,
{
    let ghost gv = view_grid(*g);
    let ghost ri = rows as int;
    let ghost ci = cols as int;
    let t1: u8 = if i >= 1 && j >= 1 && get_cell(g, i - 1, j - 1).value() == MINE_VALUE {
        1
    } else {
        0
    };
    assert(t1 == mine_ind(gv, ri, ci, i - 1, j - 1));
    let t2: u8 = if i >= 1 && get_cell(g, i - 1, j).value() == MINE_VALUE {
        1
    } else {
        0
    };
    assert(t2 == mine_ind(gv, ri, ci, i - 1, j as int));
    let t3: u8 = if i >= 1 && j + 1 < cols && get_cell(g, i - 1, j + 1).value() == MINE_VALUE {
        1
    } else {
        0
    };
    assert(t3 == mine_ind(gv, ri, ci, i - 1, j + 1));
    let t4: u8 = if j >= 1 && get_cell(g, i, j - 1).value() == MINE_VALUE {
        1
    } else {
        0
    };
    assert(t4 == mine_ind(gv, ri, ci, i as int, j - 1));
    let t5: u8 = if get_cell(g, i, j).value() == MINE_VALUE {
        1
    } else {
        0
    };
    assert(t5 == mine_ind(gv, ri, ci, i as int, j as int));
    let t6: u8 = if j + 1 < cols && get_cell(g, i, j + 1).value() == MINE_VALUE {
        1
    } else {
        0
    };
    assert(t6 == mine_ind(gv, ri, ci, i as int, j + 1));
    let t7: u8 = if i + 1 < rows && j >= 1 && get_cell(g, i + 1, j - 1).value() == MINE_VALUE {
        1
    } else {
        0
    };
    assert(t7 == mine_ind(gv, ri, ci, i + 1, j - 1));
    let t8: u8 = if i + 1 < rows && get_cell(g, i + 1, j).value() == MINE_VALUE {
        1
    } else {
        0
    };
    assert(t8 == mine_ind(gv, ri, ci, i + 1, j as int));
    let t9: u8 = if i + 1 < rows && j + 1 < cols && get_cell(g, i + 1, j + 1).value()
        == MINE_VALUE {
        1
    } else {
        0
    };
    assert(t9 == mine_ind(gv, ri, ci, i + 1, j + 1));
    t1 + t2 + t3 + t4 + t5 + t6 + t7 + t8 + t9
}

/// One if position (i, j) is on the grid and shown Flagged, zero otherwise.
pub open spec fn flag_ind(g: Seq<Seq<BoardCell>>, rows: int, cols: int, i: int, j: int) -> int {
    if 0 <= i < rows && 0 <= j < cols && g[i][j].state == BoardCellState::Flagged {
        1
    } else {
        0
    }
}

/// How many cells in the 3x3 neighborhood of (i, j), intersected with the
/// grid, are shown Flagged; the center counts too when it is Flagged.
pub open spec fn flag_adj_count(g: Seq<Seq<BoardCell>>, rows: int, cols: int, i: int, j: int) -> int {
    flag_ind(g, rows, cols, i - 1, j - 1) + flag_ind(g, rows, cols, i - 1, j) + flag_ind(
        g,
        rows,
        cols,
        i - 1,
        j + 1,
    ) + flag_ind(g, rows, cols, i, j - 1) + flag_ind(g, rows, cols, i, j) + flag_ind(
        g,
        rows,
        cols,
        i,
        j + 1,
    ) + flag_ind(g, rows, cols, i + 1, j - 1) + flag_ind(g, rows, cols, i + 1, j) + flag_ind(
        g,
        rows,
        cols,
        i + 1,
        j + 1,
    )
}

/// Count the Flagged cells among (r, j-1), (r, j), (r, j+1) on row r.
fn count_flagged_in_row(g: &BoardCells, rows: usize, cols: usize, r: usize, j: usize) -> (cnt: u8)
    requires
        grid_wf(view_grid(*g), rows as int, cols as int),
        r < rows,
        j < cols,
    ensures
        cnt == flag_ind(view_grid(*g), rows as int, cols as int, r as int, j - 1) + flag_ind(
            view_grid(*g),
            rows as int,
            cols as int,
            r as int,
            j as int,
        ) + flag_ind(view_grid(*g), rows as int, cols as int, r as int, j + 1),
        cnt <= 3,
{
    let ghost gv = view_grid(*g);
    let t1: u8 = if j >= 1 && get_cell(g, r, j - 1).state() == BoardCellState::Flagged {
        1
    } else {
        0
    };
    assert(t1 == flag_ind(gv, rows as int, cols as int, r as int, j - 1));
    let t2: u8 = if get_cell(g, r, j).state() == BoardCellState::Flagged {
        1
    } else {
        0
    };
    assert(t2 == flag_ind(gv, rows as int, cols as int, r as int, j as int));
    let t3: u8 = if j + 1 < cols && get_cell(g, r, j + 1).state() == BoardCellState::Flagged {
        1
    } else {
        0
    };
    assert(t3 == flag_ind(gv, rows as int, cols as int, r as int, j + 1));
    t1 + t2 + t3
}

/// Count the Flagged cells in the 3x3 neighborhood of (i, j), intersected
/// with the grid: the chord-click condition compares this with the cell's
/// own value.
pub(crate) fn count_flagged_neighbors(
    g: &BoardCells,
    rows: usize,
    cols: usize,
    i: usize,
    j: usize,
) -> (cnt: u8)
    requires
        grid_wf(view_grid(*g), rows as int, cols as int),
        i < rows,
        j < cols,
    ensures
        cnt == flag_adj_count(view_grid(*g), rows as int, cols as int, i as int, j as int),
        cnt <= 9,
{
    let ghost gv = view_grid(*g);
    let ghost ri = rows as int;
    let ghost ci = cols as int;
    let above: u8 = if i >= 1 {
        count_flagged_in_row(g, rows, cols, i - 1, j)
    } else {
        0
    };
    assert(above == flag_ind(gv, ri, ci, i - 1, j - 1) + flag_ind(gv, ri, ci, i - 1, j as int)
        + flag_ind(gv, ri, ci, i - 1, j + 1));
    let here = count_flagged_in_row(g, rows, cols, i, j);
    let below: u8 = if i + 1 < rows {
        count_flagged_in_row(g, rows, cols, i + 1, j)
    } else {
        0
    };
    assert(below == flag_ind(gv, ri, ci, i + 1, j - 1) + flag_ind(gv, ri, ci, i + 1, j as int)
        + flag_ind(gv, ri, ci, i + 1, j + 1));
    above + here + below
}

/// One if the cell is a mine, zero otherwise.
pub open spec fn mine_cell_ind(c: BoardCell) -> int {
    if c.is_mine() {
        1
    } else {
        0
    }
}

/// How many cells of one row are mines.
pub open spec fn row_mine_count(r: Seq<BoardCell>) -> int
    decreases r.len(),
{
    if r.len() == 0 {
        0
    } else {
        row_mine_count(r.drop_last()) + mine_cell_ind(r.last())
    }
}

/// How many cells of the grid are mines.
pub open spec fn mine_count(g: Seq<Seq<BoardCell>>) -> int
    decreases g.len(),
{
    if g.len() == 0 {
        0
    } else {
        mine_count(g.drop_last()) + row_mine_count(g.last())
    }
}

proof fn lemma_row_mine_update(r: Seq<BoardCell>, j: int, c: BoardCell)
    requires
        0 <= j < r.len(),
    ensures
        row_mine_count(r.update(j, c)) == row_mine_count(r) - mine_cell_ind(r[j]) + mine_cell_ind(
            c,
        ),
    decreases r.len(),
{
    let ru = r.update(j, c);
    if j == r.len() - 1 {
        assert(ru.drop_last() =~= r.drop_last());
    } else {
        assert(ru.drop_last() =~= r.drop_last().update(j, c));
        lemma_row_mine_update(r.drop_last(), j, c);
    }
}

/// Writing one cell moves the mine count by the difference of the two cells'
/// mine indicators.
pub proof fn lemma_grid_mine_update(g: Seq<Seq<BoardCell>>, i: int, j: int, c: BoardCell)
    requires
        0 <= i < g.len(),
        0 <= j < g[i].len(),
    ensures
        mine_count(g.update(i, g[i].update(j, c))) == mine_count(g) - mine_cell_ind(g[i][j])
            + mine_cell_ind(c),
    decreases g.len(),
{
    let gu = g.update(i, g[i].update(j, c));
    if i == g.len() - 1 {
        assert(gu.drop_last() =~= g.drop_last());
        lemma_row_mine_update(g.last(), j, c);
    } else {
        assert(gu.drop_last() =~= g.drop_last().update(i, g.drop_last()[i].update(j, c)));
        lemma_grid_mine_update(g.drop_last(), i, j, c);
        assert(gu.last() == g.last());
    }
}

proof fn lemma_row_mine_zero(r: Seq<BoardCell>)
    requires
        forall|j: int| 0 <= j < r.len() ==> !(#[trigger] r[j]).is_mine(),
    ensures
        row_mine_count(r) == 0,
    decreases r.len(),
{
    if r.len() > 0 {
        lemma_row_mine_zero(r.drop_last());
    }
}

/// A grid with no mine has a mine count of zero.
pub proof fn lemma_grid_mine_zero(g: Seq<Seq<BoardCell>>)
    requires
        forall|i: int, j: int|
            0 <= i < g.len() && 0 <= j < (#[trigger] g[i]).len() ==> !(#[trigger] g[i][j]).is_mine(),
    ensures
        mine_count(g) == 0,
    decreases g.len(),
{
    if g.len() > 0 {
        lemma_grid_mine_zero(g.drop_last());
        lemma_row_mine_zero(g.last());
    }
}

} // verus!
