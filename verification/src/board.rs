//! The board: the grid, its counters, and the game lifecycle. Mines are
//! placed lazily on the first click or flag so the first move is safe; a
//! breadth-first cascade reveals connected empty regions; `update`
//! reconciles the shown grid once the game has ended.

use vstd::prelude::*;

use crate::cell::{BoardCell, BoardCellState, MINE_VALUE};
use crate::clock;
use crate::grid::{
    adj_count, count_adjacent_mines, count_flagged_neighbors, disc_count, flag_adj_count,
    get_cell, grid_wf,
    lemma_grid_disc_bounds, lemma_grid_disc_update, lemma_grid_disc_zero, lemma_grid_mine_update,
    lemma_grid_mine_zero, mine_count, mine_ind, set_cell, view_grid, BoardCells,
};
use vstd::set_lib::{lemma_int_range, lemma_len_subset, set_int_range};
use crate::sample::sample_indices;
use crate::solver::Solver;

verus! {

/// The game lifecycle: InProgress is the initial state; Won and Lost are
/// terminal, and nothing moves a board out of them.
#[derive(Clone, PartialEq, Eq, Structural, Debug, Copy)]
pub enum GameState {
    InProgress,
    Won,
    Lost,
}

/// The one error a board operation signals: a coordinate outside the grid.
#[derive(Clone, PartialEq, Eq, Structural, Debug, Copy)]
pub enum BoardError {
    InvalidCoordinate,
}

/// The lower edge of a 3x3 neighborhood along one axis, clipped at zero.
pub open spec fn zone_lo(v: int) -> int {
    if v >= 1 {
        v - 1
    } else {
        0
    }
}

/// The upper edge of a 3x3 neighborhood along one axis, clipped at the
/// grid edge.
pub open spec fn zone_hi(v: int, limit: int) -> int {
    if v + 1 < limit {
        v + 1
    } else {
        limit - 1
    }
}

/// Whether (i, j) lies in the 3x3 neighborhood of (x, y): Chebyshev distance
/// at most one.
pub open spec fn in_zone(x: int, y: int, i: int, j: int) -> bool {
    x - 1 <= i <= x + 1 && y - 1 <= j <= y + 1
}

/// How many grid cells the 3x3 neighborhood of (x, y) covers once clipped to
/// the grid: between 1 and 9.
pub open spec fn excl_count(x: int, y: int, rows: int, cols: int) -> int {
    (zone_hi(x, rows) - zone_lo(x) + 1) * (zone_hi(y, cols) - zone_lo(y) + 1)
}

/// What one terminal `update` pass makes of a cell: non-mines are shown
/// Discovered; on a won board mines are shown Flagged; on a lost board the
/// exploded mine keeps its mark and every other mine is shown plainly.
pub open spec fn reconciled(c: BoardCell, s: GameState) -> BoardCell {
    if !c.is_mine() {
        BoardCell { state: BoardCellState::Discovered, ..c }
    } else if s == GameState::Won {
        BoardCell { state: BoardCellState::Flagged, value: MINE_VALUE }
    } else if c.state == BoardCellState::Exploded {
        c
    } else {
        BoardCell { state: BoardCellState::Discovered, value: MINE_VALUE }
    }
}

/// The row-major linear index of (i, j) on a grid with `cols` columns.
pub open spec fn lin(cols: int, i: int, j: int) -> int {
    i * cols + j
}

/// Every not-yet-popped index in the queue named a Blank cell of the grid
/// as it stood when the cascade began.
pub open spec fn queue_blank_in(q: Seq<usize>, head: int, g: Seq<Seq<BoardCell>>, cols: int) -> bool {
    forall|k: int|
        head <= k < q.len() ==> g[(#[trigger] q[k]) as int / cols][q[k] as int % cols].state
            == BoardCellState::Blank
}

/// Every not-yet-popped index in the queue named a safe (non-mine) cell of
/// the grid as it stood when the cascade began.
pub open spec fn queue_safe_in(q: Seq<usize>, head: int, g: Seq<Seq<BoardCell>>, cols: int) -> bool {
    forall|k: int|
        head <= k < q.len() ==> !g[(#[trigger] q[k]) as int / cols][q[k] as int % cols].is_mine()
}

/// Some not-yet-popped index in the queue names a mine of the grid as it
/// stood when the cascade began.
pub open spec fn queue_has_mine(q: Seq<usize>, head: int, g: Seq<Seq<BoardCell>>, cols: int) -> bool {
    exists|k: int|
        head <= k < q.len() && g[(#[trigger] q[k]) as int / cols][q[k] as int % cols].is_mine()
}

/// Every index in the queue lies on the grid.
pub open spec fn queue_in_range(q: Seq<usize>, n: int) -> bool {
    forall|k: int| 0 <= k < q.len() ==> q[k] < n
}

/// Every element of the sequence is smaller than every later one.
pub open spec fn strictly_increasing(s: Seq<usize>) -> bool {
    forall|k1: int, k2: int| 0 <= k1 < k2 < s.len() ==> s[k1] < s[k2]
}

proof fn lemma_push_contains(s: Seq<usize>, v: usize)
    ensures
        forall|w: usize| s.contains(w) ==> #[trigger] s.push(v).contains(w),
        s.push(v).contains(v),
{
    assert(s.push(v)[s.len() as int] == v);
    assert forall|w: usize| s.contains(w) implies s.push(v).contains(w) by {
        let k = choose|k: int| 0 <= k < s.len() && s[k] == w;
        assert(s.push(v)[k] == w);
    }
}

/// The skip-the-gaps walk over the sorted excluded indices `s`, started at
/// `a`, stops having counted exactly `m` of them: every earlier one was at
/// or before the running position, and the next one (if any) lies beyond it.
pub open spec fn skip_witness(s: Seq<usize>, a: int, m: int) -> bool {
    &&& 0 <= m <= s.len()
    &&& forall|k: int| 0 <= k < m ==> s[k] <= a + k
    &&& (m == s.len() || s[m] > a + m)
}

/// The skip-the-gaps translation is strictly monotone in its input, so
/// distinct sampled indices land on distinct cells.
proof fn lemma_skip_monotone(s: Seq<usize>, a1: int, m1: int, a2: int, m2: int)
    requires
        strictly_increasing(s),
        skip_witness(s, a1, m1),
        skip_witness(s, a2, m2),
        a1 < a2,
    ensures
        a1 + m1 < a2 + m2,
{
    if m1 > m2 {
        assert(s[m2] > a2 + m2);
        assert(s[m2] <= a1 + m2);
        assert(false);
    }
}

/// Distinct in-bounds coordinates have distinct row-major linear indices.
proof fn lemma_lin_injective(cols: int, i1: int, j1: int, i2: int, j2: int)
    requires
        cols >= 1,
        0 <= j1 < cols,
        0 <= j2 < cols,
        lin(cols, i1, j1) == lin(cols, i2, j2),
    ensures
        i1 == i2 && j1 == j2,
{
    assert(i1 == i2 && j1 == j2) by (nonlinear_arith)
        requires
            cols >= 1,
            0 <= j1 < cols,
            0 <= j2 < cols,
            i1 * cols + j1 == i2 * cols + j2,
    ;
}

/// Two grids that agree on every cell's value agree on every neighborhood's
/// mine count: mine-ness is read off the value alone.
proof fn lemma_adj_transfer(
    g1: Seq<Seq<BoardCell>>,
    g2: Seq<Seq<BoardCell>>,
    rows: int,
    cols: int,
    i: int,
    j: int,
)
    requires
        forall|ii: int, jj: int|
            0 <= ii < rows && 0 <= jj < cols ==> (#[trigger] g2[ii][jj]).value == g1[ii][jj].value,
    ensures
        adj_count(g2, rows, cols, i, j) == adj_count(g1, rows, cols, i, j),
{
    assert(mine_ind(g2, rows, cols, i - 1, j - 1) == mine_ind(g1, rows, cols, i - 1, j - 1));
    assert(mine_ind(g2, rows, cols, i - 1, j) == mine_ind(g1, rows, cols, i - 1, j));
    assert(mine_ind(g2, rows, cols, i - 1, j + 1) == mine_ind(g1, rows, cols, i - 1, j + 1));
    assert(mine_ind(g2, rows, cols, i, j - 1) == mine_ind(g1, rows, cols, i, j - 1));
    assert(mine_ind(g2, rows, cols, i, j) == mine_ind(g1, rows, cols, i, j));
    assert(mine_ind(g2, rows, cols, i, j + 1) == mine_ind(g1, rows, cols, i, j + 1));
    assert(mine_ind(g2, rows, cols, i + 1, j - 1) == mine_ind(g1, rows, cols, i + 1, j - 1));
    assert(mine_ind(g2, rows, cols, i + 1, j) == mine_ind(g1, rows, cols, i + 1, j));
    assert(mine_ind(g2, rows, cols, i + 1, j + 1) == mine_ind(g1, rows, cols, i + 1, j + 1));
}

/// Translate a sampled index from the mine-free index space back into the
/// full grid index space by skipping past the sorted excluded indices: each
/// excluded index at or before the running position shifts it up by one, so
/// the result never lands on an excluded index and the sample stays uniform
/// over exactly the non-excluded cells.
#[verifier::loop_isolation(false)]
fn skip_gaps(excl: &Vec<usize>, a: usize) -> (p: usize)
    requires
        strictly_increasing(excl@),
        a + excl@.len() <= usize::MAX,
    ensures
        a <= p <= a + excl@.len(),
        !excl@.contains(p),
        exists|m: int| #[trigger] skip_witness(excl@, a as int, m) && p == a + m,
{
    let mut i: usize = 0;
    let mut delta: usize = 0;
    let ghost mut m: int = 0;
    while i < excl.len()
        invariant
            0 <= m <= i <= excl@.len(),
            delta == m,
            forall|k: int| 0 <= k < m ==> excl@[k] <= a + k,
            m < i ==> excl@[m] > a + m,
        decreases excl@.len() - i,
    {
        if excl[i] <= a + delta {
            proof {
                if m < i {
                    assert(excl@[m] < excl@[i as int]);
                    assert(false);
                }
                m = m + 1;
            }
            delta = delta + 1;
        } else {
            proof {
                if m == i {
                    assert(excl@[m] > a + m);
                }
            }
        }
        i = i + 1;
    }
    let p = a + delta;
    proof {
        assert forall|k: int| 0 <= k < excl@.len() implies excl@[k] != p by {
            if k < m {
                assert(excl@[k] <= a + k);
            } else {
                assert(excl@[m] > a + m);
                if k > m {
                    assert(excl@[m] < excl@[k]);
                }
            }
        }
        if excl@.contains(p) {
            let k = choose|k: int| 0 <= k < excl@.len() && excl@[k] == p;
            assert(false);
        }
        assert(skip_witness(excl@, a as int, m) && p == a + m);
    }
    p
}

/// The linear indices of the cells excluded around the first move (x, y):
/// its 3x3 neighborhood clipped to the grid, in increasing row-major order.
#[verifier::loop_isolation(false)]
#[verifier::rlimit(60)]
fn exclusion_indices(x: usize, y: usize, rows: usize, cols: usize) -> (excl: Vec<usize>)
    requires
        x < rows,
        y < cols,
        rows * cols < usize::MAX,
    ensures
        strictly_increasing(excl@),
        excl@.len() == excl_count(x as int, y as int, rows as int, cols as int),
        forall|i: int, j: int|
            zone_lo(x as int) <= i <= zone_hi(x as int, rows as int) && zone_lo(y as int) <= j
                <= zone_hi(y as int, cols as int) ==> excl@.contains(
                ((#[trigger] lin(cols as int, i, j)) as usize),
            ),
{
    proof {
        assert(rows <= rows * cols && cols <= rows * cols) by (nonlinear_arith)
            requires
                rows >= 1,
                cols >= 1,
        ;
    }
    let n = rows * cols;
    let r0 = if x >= 1 {
        x - 1
    } else {
        0
    };
    let r1 = if x + 1 < rows {
        x + 1
    } else {
        rows - 1
    };
    let c0 = if y >= 1 {
        y - 1
    } else {
        0
    };
    let c1 = if y + 1 < cols {
        y + 1
    } else {
        cols - 1
    };
    let width = c1 - c0 + 1;
    let mut excl: Vec<usize> = Vec::new();
    let mut r = r0;
    proof {
        assert((r0 - r0) * width == 0) by (nonlinear_arith);
    }
    while r < r1 + 1
        invariant
            r0 <= r <= r1 + 1,
            excl@.len() == (r - r0) * width,
            strictly_increasing(excl@),
            forall|k: int| 0 <= k < excl@.len() ==> excl@[k] < r * cols + c0,
            forall|i: int, j: int|
                r0 <= i < r && c0 <= j <= c1 ==> excl@.contains(
                    ((#[trigger] lin(cols as int, i, j)) as usize),
                ),
        decreases r1 + 1 - r,
    {
        let mut c = c0;
        while c < c1 + 1
            invariant
                r0 <= r <= r1,
                c0 <= c <= c1 + 1,
                excl@.len() == (r - r0) * width + (c - c0),
                strictly_increasing(excl@),
                forall|k: int| 0 <= k < excl@.len() ==> excl@[k] < r * cols + c,
                forall|i: int, j: int|
                    r0 <= i < r && c0 <= j <= c1 ==> excl@.contains(
                        ((#[trigger] lin(cols as int, i, j)) as usize),
                    ),
                forall|j: int|
                    c0 <= j < c ==> excl@.contains(
                        ((#[trigger] lin(cols as int, r as int, j)) as usize),
                    ),
            decreases c1 + 1 - c,
        {
            proof {
                assert(r * cols + c < n) by (nonlinear_arith)
                    requires
                        r < rows,
                        c < cols,
                        n == rows * cols,
                ;
            }
            let v = r * cols + c;
            proof {
                lemma_push_contains(excl@, v);
            }
            excl.push(v);
            c = c + 1;
        }
        proof {
            assert((r + 1 - r0) * width == (r - r0) * width + width) by (nonlinear_arith);
            assert(r * cols + c1 + 1 <= (r + 1) * cols + c0) by (nonlinear_arith)
                requires
                    c1 < cols,
                    c0 >= 0,
            ;
        }
        r = r + 1;
    }
    excl
}

/// Drop the sampled mines onto the grid: each sampled index is translated
/// past the exclusion gaps (when `shift` is on) and the cell there gets the
/// sentinel value, its display tag untouched. Distinct samples land on
/// distinct cells, so exactly one mine per sample is placed.
#[verifier::loop_isolation(false)]
#[verifier::rlimit(100)]
fn place_mines(
    board: &mut BoardCells,
    rows: usize,
    cols: usize,
    samples: &Vec<usize>,
    excl: &Vec<usize>,
    shift: bool,
    x: usize,
    y: usize,
)
    requires
        x < rows,
        y < cols,
        rows * cols < usize::MAX,
        grid_wf(view_grid(*old(board)), rows as int, cols as int),
        forall|i: int, j: int|
            0 <= i < rows && 0 <= j < cols ==> (#[trigger] view_grid(*old(board))[i][j]).state
                == BoardCellState::Blank && view_grid(*old(board))[i][j].value == 0,
        strictly_increasing(excl@),
        excl@.len() == excl_count(x as int, y as int, rows as int, cols as int),
        forall|i: int, j: int|
            zone_lo(x as int) <= i <= zone_hi(x as int, rows as int) && zone_lo(y as int) <= j
                <= zone_hi(y as int, cols as int) ==> excl@.contains(
                ((#[trigger] lin(cols as int, i, j)) as usize),
            ),
        forall|k: int| 0 <= k < samples@.len() ==> samples@[k] + excl@.len() < rows * cols,
        forall|k1: int, k2: int| 0 <= k1 < k2 < samples@.len() ==> samples@[k1] != samples@[k2],
    ensures
        view_grid(*final(board)).len() == rows,
        forall|ii: int|
            0 <= ii < rows ==> (#[trigger] view_grid(*final(board))[ii]).len() == cols,
        forall|i: int, j: int|
            0 <= i < rows && 0 <= j < cols ==> (#[trigger] view_grid(*final(board))[i][j]).state
                == BoardCellState::Blank && (view_grid(*final(board))[i][j].value == 0
                || view_grid(*final(board))[i][j].value == MINE_VALUE),
        mine_count(view_grid(*final(board))) == samples@.len(),
        shift ==> forall|i: int, j: int|
            0 <= i < rows && 0 <= j < cols && in_zone(x as int, y as int, i, j) ==> !(
            #[trigger] view_grid(*final(board))[i][j]).is_mine(),
{
    proof {
        lemma_grid_mine_zero(view_grid(*board));
    }
    let ghost n = rows as int * cols as int;
    let ghost mut ps: Seq<int> = Seq::empty();
    let ghost mut ms: Seq<int> = Seq::empty();
    let mut t: usize = 0;
    while t < samples.len()
        invariant
            t <= samples@.len(),
            view_grid(*board).len() == rows,
            forall|ii: int| 0 <= ii < rows ==> (#[trigger] view_grid(*board)[ii]).len() == cols,
            forall|i: int, j: int|
                0 <= i < rows && 0 <= j < cols ==> (#[trigger] view_grid(*board)[i][j]).state
                    == BoardCellState::Blank && (view_grid(*board)[i][j].value == 0 || view_grid(
                    *board,
                )[i][j].value == MINE_VALUE),
            shift ==> forall|i: int, j: int|
                0 <= i < rows && 0 <= j < cols && in_zone(x as int, y as int, i, j) ==> !(
                #[trigger] view_grid(*board)[i][j]).is_mine(),
            ps.len() == t,
            ms.len() == t,
            forall|k: int|
                0 <= k < t && shift ==> skip_witness(
                    excl@,
                    samples@[k] as int,
                    #[trigger] ms[k],
                ) && ps[k] == samples@[k] + ms[k],
            forall|k: int| 0 <= k < t && !shift ==> #[trigger] ps[k] == samples@[k],
            forall|k1: int, k2: int| 0 <= k1 < k2 < t ==> ps[k1] != ps[k2],
            forall|i: int, j: int|
                0 <= i < rows && 0 <= j < cols ==> ((#[trigger] view_grid(*board)[i][j]).is_mine()
                    <==> exists|k: int| 0 <= k < t && #[trigger] ps[k] == lin(cols as int, i, j)),
            mine_count(view_grid(*board)) == t,
        decreases samples@.len() - t,
    {
        let a = samples[t];
        let ghost mut mt: int = 0;
        let p: usize;
        if shift {
            p = skip_gaps(excl, a);
            proof {
                mt = choose|m: int| #[trigger] skip_witness(excl@, a as int, m) && p == a + m;
            }
        } else {
            p = a;
        }
        assert(p < rows * cols);
        let pi = p / cols;
        let pj = p % cols;
        proof {
            assert(pi * cols + pj == p && pj < cols && pi < rows) by (nonlinear_arith)
                requires
                    pi == p as int / cols as int,
                    pj == p as int % cols as int,
                    cols >= 1,
                    p < rows * cols,
            ;
            if shift && in_zone(x as int, y as int, pi as int, pj as int) {
                assert(zone_lo(x as int) <= pi <= zone_hi(x as int, rows as int) && zone_lo(
                    y as int,
                ) <= pj <= zone_hi(y as int, cols as int));
                assert(excl@.contains(((lin(cols as int, pi as int, pj as int)) as usize)));
                assert(false);
            }
            // This position is new: the translation is strictly monotone,
            // so distinct samples cannot collide.
            assert forall|k: int| 0 <= k < t implies ps[k] != p as int by {
                if shift {
                    if samples@[k] < a {
                        lemma_skip_monotone(excl@, samples@[k] as int, ms[k], a as int, mt);
                    } else {
                        lemma_skip_monotone(excl@, a as int, mt, samples@[k] as int, ms[k]);
                    }
                }
            }
        }
        let tag = get_cell(board, pi, pj).state();
        let ghost gprev = view_grid(*board);
        let ghost psold = ps;
        set_cell(board, pi, pj, BoardCell { state: tag, value: MINE_VALUE });
        proof {
            assert(!gprev[pi as int][pj as int].is_mine());
            lemma_grid_mine_update(
                gprev,
                pi as int,
                pj as int,
                BoardCell { state: tag, value: MINE_VALUE },
            );
            ps = ps.push(p as int);
            ms = ms.push(mt);
            assert(ps[t as int] == p as int);
            assert forall|i: int, j: int|
                0 <= i < rows && 0 <= j < cols implies ((#[trigger] view_grid(
                *board,
            )[i][j]).is_mine() <==> exists|k: int|
                0 <= k < t + 1 && #[trigger] ps[k] == lin(cols as int, i, j)) by {
                if i == pi && j == pj {
                    assert(ps[t as int] == lin(cols as int, i, j));
                } else {
                    assert(view_grid(*board)[i][j] == gprev[i][j]);
                    if gprev[i][j].is_mine() {
                        let k = choose|k: int|
                            0 <= k < t && #[trigger] psold[k] == lin(cols as int, i, j);
                        assert(ps[k] == lin(cols as int, i, j));
                    }
                    if exists|k: int| 0 <= k < t + 1 && #[trigger] ps[k] == lin(cols as int, i, j) {
                        let k = choose|k: int|
                            0 <= k < t + 1 && #[trigger] ps[k] == lin(cols as int, i, j);
                        if k == t {
                            lemma_lin_injective(cols as int, i, j, pi as int, pj as int);
                            assert(false);
                        } else {
                            assert(psold[k] == lin(cols as int, i, j));
                        }
                    }
                }
            }
        }
        t = t + 1;
    }
}

/// Settle every safe cell to the exact count of mines in its neighborhood;
/// mines and every display tag stay as they are.
#[verifier::loop_isolation(false)]
#[verifier::rlimit(60)]
fn settle_counts(board: &mut BoardCells, rows: usize, cols: usize)
    requires
        rows >= 1,
        cols >= 1,
        grid_wf(view_grid(*old(board)), rows as int, cols as int),
        forall|i: int, j: int|
            0 <= i < rows && 0 <= j < cols ==> (#[trigger] view_grid(*old(board))[i][j]).state
                == BoardCellState::Blank,
    ensures
        view_grid(*final(board)).len() == rows,
        forall|ii: int|
            0 <= ii < rows ==> (#[trigger] view_grid(*final(board))[ii]).len() == cols,
        forall|i: int, j: int|
            0 <= i < rows && 0 <= j < cols ==> (#[trigger] view_grid(*final(board))[i][j]).state
                == BoardCellState::Blank,
        forall|i: int, j: int|
            0 <= i < rows && 0 <= j < cols ==> (#[trigger] view_grid(*final(board))[i][j]).is_mine()
                == view_grid(*old(board))[i][j].is_mine(),
        mine_count(view_grid(*final(board))) == mine_count(view_grid(*old(board))),
        forall|i: int, j: int|
            0 <= i < rows && 0 <= j < cols && !(#[trigger] view_grid(*final(board))[i][j]).is_mine()
                ==> view_grid(*final(board))[i][j].value == adj_count(
                view_grid(*final(board)),
                rows as int,
                cols as int,
                i,
                j,
            ) && view_grid(*final(board))[i][j].value <= 9,
{
    let ghost ga = view_grid(*board);
    let mut i: usize = 0;
    while i < rows
        invariant
            i <= rows,
            view_grid(*board).len() == rows,
            forall|ii: int| 0 <= ii < rows ==> (#[trigger] view_grid(*board)[ii]).len() == cols,
            forall|ii: int, jj: int|
                0 <= ii < rows && 0 <= jj < cols ==> (#[trigger] view_grid(*board)[ii][jj]).is_mine()
                    == ga[ii][jj].is_mine(),
            mine_count(view_grid(*board)) == mine_count(ga),
            forall|ii: int, jj: int|
                0 <= ii < rows && 0 <= jj < cols ==> (#[trigger] view_grid(*board)[ii][jj]).state
                    == BoardCellState::Blank,
            forall|ii: int, jj: int|
                i <= ii < rows && 0 <= jj < cols ==> (#[trigger] view_grid(*board)[ii][jj])
                    == ga[ii][jj],
            forall|ii: int, jj: int|
                0 <= ii < i && 0 <= jj < cols && !(#[trigger] view_grid(*board)[ii][jj]).is_mine()
                    ==> view_grid(*board)[ii][jj].value == adj_count(
                    view_grid(*board),
                    rows as int,
                    cols as int,
                    ii,
                    jj,
                ) && view_grid(*board)[ii][jj].value <= 9,
        decreases rows - i,
    {
        let mut j: usize = 0;
        while j < cols
            invariant
                i < rows,
                j <= cols,
                view_grid(*board).len() == rows,
                forall|ii: int| 0 <= ii < rows ==> (#[trigger] view_grid(*board)[ii]).len() == cols,
                forall|ii: int, jj: int|
                    0 <= ii < rows && 0 <= jj < cols ==> (#[trigger] view_grid(
                        *board,
                    )[ii][jj]).is_mine() == ga[ii][jj].is_mine(),
                mine_count(view_grid(*board)) == mine_count(ga),
                forall|ii: int, jj: int|
                    0 <= ii < rows && 0 <= jj < cols ==> (#[trigger] view_grid(
                        *board,
                    )[ii][jj]).state == BoardCellState::Blank,
                forall|ii: int, jj: int|
                    0 <= ii < rows && 0 <= jj < cols && (ii > i || (ii == i && jj >= j)) ==> (
                    #[trigger] view_grid(*board)[ii][jj]) == ga[ii][jj],
                forall|ii: int, jj: int|
                    0 <= ii < rows && 0 <= jj < cols && (ii < i || (ii == i && jj < j)) && !(
                    #[trigger] view_grid(*board)[ii][jj]).is_mine() ==> view_grid(
                        *board,
                    )[ii][jj].value == adj_count(
                        view_grid(*board),
                        rows as int,
                        cols as int,
                        ii,
                        jj,
                    ) && view_grid(*board)[ii][jj].value <= 9,
            decreases cols - j,
        {
            let c = get_cell(board, i, j);
            if c.value() != MINE_VALUE {
                let cnt = count_adjacent_mines(board, rows, cols, i, j);
                let ghost gprev = view_grid(*board);
                set_cell(board, i, j, BoardCell { state: BoardCellState::Blank, value: cnt });
                proof {
                    lemma_grid_mine_update(
                        gprev,
                        i as int,
                        j as int,
                        BoardCell { state: BoardCellState::Blank, value: cnt },
                    );
                }
            }
            j = j + 1;
        }
        i = i + 1;
    }
}

/// The row-major linear index of (i, j), shown smaller than the cell count.
fn lin_index(i: usize, j: usize, rows: usize, cols: usize) -> (r: usize)
    requires
        i < rows,
        j < cols,
        rows * cols < usize::MAX,
    ensures
        r == lin(cols as int, i as int, j as int),
        r < rows * cols,
{
    proof {
        assert(i * cols + j < rows * cols) by (nonlinear_arith)
            requires
                i < rows,
                j < cols,
        ;
    }
    i * cols + j
}

/// The linear indices of the in-bounds cells in the 3x3 neighborhood of
/// (i, j), the center excluded.
fn neighbor_indices(i: usize, j: usize, rows: usize, cols: usize) -> (r: Vec<usize>)
    requires
        i < rows,
        j < cols,
        rows * cols < usize::MAX,
    ensures
        forall|k: int| 0 <= k < r@.len() ==> r@[k] < rows * cols,
        forall|k: int|
            0 <= k < r@.len() ==> exists|i2: int, j2: int|
                0 <= i2 < rows && 0 <= j2 < cols && in_zone(i as int, j as int, i2, j2) && (
                #[trigger] r@[k]) == lin(cols as int, i2, j2),
        forall|i2: int, j2: int|
            0 <= i2 < rows && 0 <= j2 < cols && in_zone(i as int, j as int, i2, j2) && !(i2
                == i && j2 == j) ==> r@.contains(((#[trigger] lin(cols as int, i2, j2)) as usize)),
{
    let mut r: Vec<usize> = Vec::new();
    if i >= 1 {
        if j >= 1 {
            proof {
                lemma_push_contains(r@, (lin(cols as int, i - 1, j - 1)) as usize);
            }
            r.push(lin_index(i - 1, j - 1, rows, cols));
        }
        proof {
            lemma_push_contains(r@, (lin(cols as int, i - 1, j as int)) as usize);
        }
        r.push(lin_index(i - 1, j, rows, cols));
        if j + 1 < cols {
            proof {
                lemma_push_contains(r@, (lin(cols as int, i - 1, j + 1)) as usize);
            }
            r.push(lin_index(i - 1, j + 1, rows, cols));
        }
    }
    if j >= 1 {
        proof {
            lemma_push_contains(r@, (lin(cols as int, i as int, j - 1)) as usize);
        }
        r.push(lin_index(i, j - 1, rows, cols));
    }
    if j + 1 < cols {
        proof {
            lemma_push_contains(r@, (lin(cols as int, i as int, j + 1)) as usize);
        }
        r.push(lin_index(i, j + 1, rows, cols));
    }
    if i + 1 < rows {
        if j >= 1 {
            proof {
                lemma_push_contains(r@, (lin(cols as int, i + 1, j - 1)) as usize);
            }
            r.push(lin_index(i + 1, j - 1, rows, cols));
        }
        proof {
            lemma_push_contains(r@, (lin(cols as int, i + 1, j as int)) as usize);
        }
        r.push(lin_index(i + 1, j, rows, cols));
        if j + 1 < cols {
            proof {
                lemma_push_contains(r@, (lin(cols as int, i + 1, j + 1)) as usize);
            }
            r.push(lin_index(i + 1, j + 1, rows, cols));
        }
    }
    r
}

/// If a hidden mine (im, jm) sits next to the chord center and every hidden
/// neighbor found in the seed list went into the queue, the queue holds a
/// mine.
proof fn lemma_seeded_mine(
    g1: Seq<Seq<BoardCell>>,
    nbrs: Seq<usize>,
    q: Seq<usize>,
    rows: int,
    cols: int,
    x: int,
    y: int,
    im: int,
    jm: int,
)
    requires
        cols >= 1,
        rows * cols <= usize::MAX,
        0 <= im < rows,
        0 <= jm < cols,
        in_zone(x, y, im, jm),
        !(im == x && jm == y),
        g1[im][jm].state == BoardCellState::Blank,
        g1[im][jm].is_mine(),
        forall|i2: int, j2: int|
            0 <= i2 < rows && 0 <= j2 < cols && in_zone(x, y, i2, j2) && !(i2 == x && j2 == y)
                ==> nbrs.contains(((#[trigger] lin(cols, i2, j2)) as usize)),
        forall|k2: int|
            0 <= k2 < nbrs.len() && g1[(#[trigger] nbrs[k2]) as int / cols][nbrs[k2] as int % cols].state
                == BoardCellState::Blank ==> q.contains(nbrs[k2]),
    ensures
        queue_has_mine(q, 0, g1, cols),
{
    assert(0 <= im * cols + jm < rows * cols) by (nonlinear_arith)
        requires
            0 <= im < rows,
            0 <= jm < cols,
    ;
    assert(nbrs.contains(((lin(cols, im, jm)) as usize)));
    let k2 = choose|k2: int| 0 <= k2 < nbrs.len() && nbrs[k2] == ((lin(cols, im, jm)) as usize);
    assert(nbrs[k2] == im * cols + jm);
    assert(nbrs[k2] as int / cols == im && nbrs[k2] as int % cols == jm) by (nonlinear_arith)
        requires
            nbrs[k2] == im * cols + jm,
            0 <= jm < cols,
            im >= 0,
            cols >= 1,
    ;
    assert(q.contains(nbrs[k2]));
    let k0 = choose|k0: int| 0 <= k0 < q.len() && q[k0] == nbrs[k2];
    assert(g1[(q[k0]) as int / cols][q[k0] as int % cols].is_mine());
}

/// The board: grid, dimensions, mine count, lifecycle state, counters, and
/// the timer and solver handles.
pub struct Board {
    pub board: BoardCells,
    pub rows: usize,
    pub cols: usize,
    pub mines: usize,
    pub game_state: GameState,
    pub start: bool,
    pub clicked_cells: usize,
    pub flagged_cells: i16,
    pub start_time: Option<wasm_timer::Instant>,
    pub display_time: u64,
    pub solver: Option<Solver>,
}

impl Board {
    /// The grid as a sequence of rows of cells.
    pub open spec fn grid(self) -> Seq<Seq<BoardCell>> {
        view_grid(self.board)
    }

    /// The board invariant: the grid has the stated dimensions and holds
    /// well-formed cells; an unstarted board is untouched and all Blank; the
    /// discovered-cell counter matches the grid while the game runs; and the
    /// win flag coincides with the counter equation.
    pub open spec fn wf(self) -> bool {
        &&& self.rows >= 1
        &&& self.cols >= 1
        &&& self.rows * self.cols < usize::MAX
        &&& grid_wf(self.grid(), self.rows as int, self.cols as int)
        &&& (self.start <==> self.start_time is Some)
        &&& (self.start ==> self.mines < self.rows * self.cols)
        &&& (!self.start ==> {
            &&& self.game_state == GameState::InProgress
            &&& self.clicked_cells == 0
            &&& self.flagged_cells == 0
            &&& forall|i: int, j: int|
                0 <= i < self.rows && 0 <= j < self.cols ==> self.grid()[i][j] == (BoardCell {
                    state: BoardCellState::Blank,
                    value: 0u8,
                })
        })
        &&& (self.game_state == GameState::Won ==> self.clicked_cells + self.mines == self.rows
            * self.cols)
        &&& (self.start && self.game_state == GameState::InProgress ==> self.clicked_cells
            + self.mines != self.rows * self.cols)
        &&& (self.game_state == GameState::InProgress ==> self.clicked_cells == disc_count(
            self.grid(),
        ))
        &&& (self.game_state == GameState::InProgress ==> forall|i: int, j: int|
            0 <= i < self.rows && 0 <= j < self.cols ==> (#[trigger] self.grid()[i][j]).state
                != BoardCellState::Exploded)
    }

    /// A fresh board: all-Blank grid, no mines placed yet, game in progress.
    pub fn new(rows: usize, cols: usize, mines: usize) -> (b: Board)
        requires
            rows >= 1,
            cols >= 1,
            rows * cols < usize::MAX,
        ensures
            b.wf(),
            b.rows == rows,
            b.cols == cols,
            b.mines == mines,
            b.game_state == GameState::InProgress,
            !b.start,
            b.clicked_cells == 0,
            b.flagged_cells == 0,
            b.display_time == 0,
            b.solver is None,
    {
        let mut board: BoardCells = Vec::new();
        let mut i: usize = 0;
        while i < rows
            invariant
                i <= rows,
                view_grid(board).len() == i,
                forall|ii: int| 0 <= ii < i ==> (#[trigger] view_grid(board)[ii]).len() == cols,
                forall|ii: int, jj: int|
                    0 <= ii < i && 0 <= jj < cols ==> view_grid(board)[ii][jj] == (BoardCell {
                        state: BoardCellState::Blank,
                        value: 0u8,
                    }),
            decreases rows - i,
        {
            let mut row: Vec<BoardCell> = Vec::new();
            let mut j: usize = 0;
            while j < cols
                invariant
                    j <= cols,
                    row@.len() == j,
                    forall|jj: int| 0 <= jj < j ==> row@[jj] == (BoardCell {
                        state: BoardCellState::Blank,
                        value: 0u8,
                    }),
                decreases cols - j,
            {
                row.push(BoardCell::new());
                j = j + 1;
            }
            let ghost prev = view_grid(board);
            board.push(row);
            proof {
                assert(view_grid(board) =~~= prev.push(row@));
            }
            i = i + 1;
        }
        proof {
            lemma_grid_disc_zero(view_grid(board));
        }
        Board {
            board,
            rows,
            cols,
            mines,
            game_state: GameState::InProgress,
            start: false,
            clicked_cells: 0,
            flagged_cells: 0,
            start_time: None,
            display_time: 0,
            solver: None,
        }
    }

    /// Activate the board: place the mines and start the timer and the
    /// solver. With `shift` on — as both the click and the flag path pass it
    /// — no mine lands in the 3x3 neighborhood of (x, y). Afterwards every
    /// cell is still hidden, exactly `mines` cells carry the sentinel value,
    /// and every other cell carries the exact count of its adjacent mines.
    #[verifier::loop_isolation(false)]
    #[verifier::rlimit(100)]
    pub fn start(&mut self, x: usize, y: usize, shift: bool)
        requires
            old(self).wf(),
            x < old(self).rows,
            y < old(self).cols,
            !old(self).start ==> old(self).mines + excl_count(
                x as int,
                y as int,
                old(self).rows as int,
                old(self).cols as int,
            ) <= old(self).rows * old(self).cols,
        ensures
            final(self).wf(),
            final(self).start,
            old(self).start ==> *final(self) == *old(self),
            final(self).rows == old(self).rows,
            final(self).cols == old(self).cols,
            final(self).mines == old(self).mines,
            final(self).game_state == old(self).game_state,
            final(self).clicked_cells == old(self).clicked_cells,
            final(self).flagged_cells == old(self).flagged_cells,
            final(self).display_time == old(self).display_time,
            !old(self).start ==> {
                &&& final(self).game_state == GameState::InProgress
                &&& forall|i: int, j: int|
                    0 <= i < old(self).rows && 0 <= j < old(self).cols ==> (#[trigger] final(self).grid()[i][j]).state == BoardCellState::Blank
                &&& forall|i: int, j: int|
                    0 <= i < old(self).rows && 0 <= j < old(self).cols && !(#[trigger] final(self).grid()[i][j]).is_mine() ==> final(self).grid()[i][j].value == adj_count(
                        final(self).grid(),
                        old(self).rows as int,
                        old(self).cols as int,
                        i,
                        j,
                    )
                &&& shift ==> forall|i: int, j: int|
                    0 <= i < old(self).rows && 0 <= j < old(self).cols && in_zone(
                        x as int,
                        y as int,
                        i,
                        j,
                    ) ==> !(#[trigger] final(self).grid()[i][j]).is_mine()
                &&& mine_count(final(self).grid()) == old(self).mines
                &&& final(self).solver is Some
                &&& final(self).solver->0.running
                &&& view_grid(final(self).solver->0.snapshot) == final(self).grid()
            },
    {
        if self.start {
            // Redundant activation is a guarded no-op.
            return ;
        }
        let rows = self.rows;
        let cols = self.cols;
        proof {
            assert(rows <= rows * cols && cols <= rows * cols) by (nonlinear_arith)
                requires
                    rows >= 1,
                    cols >= 1,
            ;
        }
        let n = rows * cols;
        let excl = exclusion_indices(x, y, rows, cols);
        let excl_len = excl.len();
        proof {
            assert(excl_len >= 1) by (nonlinear_arith)
                requires
                    excl_len == (zone_hi(x as int, rows as int) - zone_lo(x as int) + 1) * (zone_hi(
                        y as int,
                        cols as int,
                    ) - zone_lo(y as int) + 1),
                    zone_hi(x as int, rows as int) >= zone_lo(x as int),
                    zone_hi(y as int, cols as int) >= zone_lo(y as int),
            ;
        }
        // Sample distinct positions in the reduced index space, then shift
        // each past the exclusion gaps.
        let avail = n - excl_len;
        let samples = sample_indices(avail, self.mines);
        place_mines(&mut self.board, rows, cols, &samples, &excl, shift, x, y);
        settle_counts(&mut self.board, rows, cols);
        // Hand the solver its snapshot and start the timer.
        let mut solver = Solver::from_grid_snapshot(&self.board);
        solver.start();
        self.solver = Some(solver);
        self.start = true;
        self.start_time = Some(clock::instant_now());
        proof {
            lemma_grid_disc_zero(self.grid());
        }
    }


    /// Click (x, y). The first click activates the board with the exclusion
    /// shift on, so the 3x3 neighborhood of the first move holds no mine. A
    /// click on a Discovered cell whose flagged-neighbor count equals its
    /// value seeds the cascade with its hidden neighbors (a chord); a click
    /// on a hidden cell seeds it with that cell. The cascade reveals cells
    /// breadth-first, spreading from zero-count cells; popping a mine loses
    /// the game on the spot, marks exactly that cell Exploded and stops. A
    /// coordinate outside the grid is refused; a finished game is left
    /// untouched.
    #[verifier::loop_isolation(false)]
    #[verifier::rlimit(100)]
    #[verifier::spinoff_prover]
    pub fn click(&mut self, x: usize, y: usize) -> (res: Result<(), BoardError>)
        requires
            old(self).wf(),
            !old(self).start && x < old(self).rows && y < old(self).cols ==> old(self).mines
                + excl_count(
                x as int,
                y as int,
                old(self).rows as int,
                old(self).cols as int,
            ) <= old(self).rows * old(self).cols,
        ensures
            final(self).wf(),
            final(self).rows == old(self).rows,
            final(self).cols == old(self).cols,
            final(self).mines == old(self).mines,
            final(self).flagged_cells == old(self).flagged_cells,
            res is Err <==> !(x < old(self).rows && y < old(self).cols),
            res is Err ==> *final(self) == *old(self),
            x < old(self).rows && y < old(self).cols && old(self).game_state
                != GameState::InProgress ==> *final(self) == *old(self),
            x < old(self).rows && y < old(self).cols && old(self).game_state
                == GameState::InProgress ==> final(self).start,
            old(self).start ==> forall|i: int, j: int|
                0 <= i < old(self).rows && 0 <= j < old(self).cols ==> (#[trigger] final(self).grid()[i][j]).value == old(self).grid()[i][j].value,
            old(self).start ==> forall|i: int, j: int|
                0 <= i < old(self).rows && 0 <= j < old(self).cols && old(self).grid()[i][j].state
                    == BoardCellState::Discovered ==> (#[trigger] final(self).grid()[i][j]) == old(self).grid()[i][j],
            !old(self).start && x < old(self).rows && y < old(self).cols && old(self).game_state
                == GameState::InProgress ==> forall|i: int, j: int|
                0 <= i < old(self).rows && 0 <= j < old(self).cols && in_zone(
                    x as int,
                    y as int,
                    i,
                    j,
                ) ==> !(#[trigger] final(self).grid()[i][j]).is_mine(),
            old(self).start && old(self).game_state == GameState::InProgress && x < old(self).rows
                && y < old(self).cols && old(self).grid()[x as int][y as int].state
                == BoardCellState::Blank && old(self).grid()[x as int][y as int].is_mine() ==> {
                &&& final(self).game_state == GameState::Lost
                &&& final(self).grid()[x as int][y as int] == (BoardCell {
                    state: BoardCellState::Exploded,
                    value: MINE_VALUE,
                })
                &&& forall|i: int, j: int|
                    0 <= i < old(self).rows && 0 <= j < old(self).cols && !(i == x && j == y)
                        ==> (#[trigger] final(self).grid()[i][j]) == old(self).grid()[i][j]
                &&& final(self).clicked_cells == old(self).clicked_cells
            },
            old(self).start && old(self).game_state == GameState::InProgress && x < old(self).rows
                && y < old(self).cols && old(self).grid()[x as int][y as int].state
                == BoardCellState::Blank && !old(self).grid()[x as int][y as int].is_mine() ==> {
                &&& final(self).grid()[x as int][y as int] == (BoardCell {
                    state: BoardCellState::Discovered,
                    value: old(self).grid()[x as int][y as int].value,
                })
                &&& final(self).clicked_cells >= old(self).clicked_cells + 1
            },
            !old(self).start && x < old(self).rows && y < old(self).cols && old(self).game_state
                == GameState::InProgress ==> {
                &&& final(self).grid()[x as int][y as int].state == BoardCellState::Discovered
                &&& final(self).clicked_cells >= 1
                &&& final(self).game_state != GameState::Lost
                &&& mine_count(final(self).grid()) == old(self).mines
                &&& forall|i: int, j: int|
                    0 <= i < old(self).rows && 0 <= j < old(self).cols && !(#[trigger] final(self).grid()[i][j]).is_mine() ==> final(self).grid()[i][j].value == adj_count(
                        final(self).grid(),
                        old(self).rows as int,
                        old(self).cols as int,
                        i,
                        j,
                    )
            },
            old(self).start && old(self).game_state == GameState::InProgress && x < old(self).rows
                && y < old(self).cols && (old(self).grid()[x as int][y as int].state
                == BoardCellState::Flagged || old(self).grid()[x as int][y as int].state
                == BoardCellState::Question || old(self).grid()[x as int][y as int].state
                == BoardCellState::Other) ==> *final(self) == *old(self),
            old(self).start && old(self).game_state == GameState::InProgress && x < old(self).rows
                && y < old(self).cols && old(self).grid()[x as int][y as int].state
                == BoardCellState::Discovered && flag_adj_count(
                old(self).grid(),
                old(self).rows as int,
                old(self).cols as int,
                x as int,
                y as int,
            ) != old(self).grid()[x as int][y as int].value ==> *final(self) == *old(self),
            old(self).start ==> forall|i: int, j: int|
                0 <= i < old(self).rows && 0 <= j < old(self).cols && old(self).grid()[i][j].is_mine() ==> (#[trigger] final(self).grid()[i][j]) == old(self).grid()[i][j] || final(self).grid()[i][j] == (BoardCell {
                    state: BoardCellState::Exploded,
                    value: MINE_VALUE,
                }),
            old(self).start ==> forall|i: int, j: int|
                0 <= i < old(self).rows && 0 <= j < old(self).cols ==> (#[trigger] final(self).grid()[i][j]) == old(self).grid()[i][j] || (old(self).grid()[i][j].state
                    == BoardCellState::Blank && !old(self).grid()[i][j].is_mine() && final(self).grid()[i][j] == (BoardCell {
                    state: BoardCellState::Discovered,
                    value: old(self).grid()[i][j].value,
                })) || (old(self).grid()[i][j].state == BoardCellState::Blank && old(self).grid()[i][j].is_mine() && final(self).grid()[i][j] == (BoardCell {
                    state: BoardCellState::Exploded,
                    value: MINE_VALUE,
                })),
            old(self).start && old(self).game_state == GameState::InProgress && x < old(self).rows
                && y < old(self).cols && old(self).grid()[x as int][y as int].state
                == BoardCellState::Discovered && flag_adj_count(
                old(self).grid(),
                old(self).rows as int,
                old(self).cols as int,
                x as int,
                y as int,
            ) == old(self).grid()[x as int][y as int].value && (exists|im: int, jm: int|
                0 <= im < old(self).rows && 0 <= jm < old(self).cols && in_zone(
                    x as int,
                    y as int,
                    im,
                    jm,
                ) && !(im == x && jm == y) && (#[trigger] old(self).grid()[im][jm]).state
                    == BoardCellState::Blank && old(self).grid()[im][jm].is_mine()) ==> final(self).game_state == GameState::Lost,
            old(self).game_state == GameState::InProgress && x < old(self).rows && y < old(self).cols && final(self).game_state == GameState::Lost ==> exists|mi: int, mj: int|
                0 <= mi < old(self).rows && 0 <= mj < old(self).cols && (#[trigger] final(self).grid()[mi][mj]) == (BoardCell {
                    state: BoardCellState::Exploded,
                    value: MINE_VALUE,
                }) && (forall|i: int, j: int|
                    0 <= i < old(self).rows && 0 <= j < old(self).cols && !(i == mi && j == mj)
                        ==> (#[trigger] final(self).grid()[i][j]).state != BoardCellState::Exploded),
    {
        if !(x < self.rows && y < self.cols) {
            return Err(BoardError::InvalidCoordinate);
        }
        if self.game_state != GameState::InProgress {
            return Ok(());
        }
        if !self.start {
            self.start(x, y, true);
        }
        let rows = self.rows;
        let cols = self.cols;
        let n = rows * cols;
        let ghost g1 = self.grid();
        let ghost s1 = *self;
        let ghost mine_hyp = old(self).start && old(self).grid()[x as int][y as int].state
            == BoardCellState::Blank && old(self).grid()[x as int][y as int].is_mine();
        let ghost safe_hyp = (old(self).start && old(self).grid()[x as int][y as int].state
            == BoardCellState::Blank && !old(self).grid()[x as int][y as int].is_mine()) || !old(
            self,
        ).start;
        let ghost first_hyp = !old(self).start;
        let ghost chord_mine_hyp = old(self).start && old(self).grid()[x as int][y as int].state
            == BoardCellState::Discovered && flag_adj_count(
            old(self).grid(),
            old(self).rows as int,
            old(self).cols as int,
            x as int,
            y as int,
        ) == old(self).grid()[x as int][y as int].value && (exists|im: int, jm: int|
            0 <= im < old(self).rows && 0 <= jm < old(self).cols && in_zone(
                x as int,
                y as int,
                im,
                jm,
            ) && !(im == x && jm == y) && (#[trigger] old(self).grid()[im][jm]).state
                == BoardCellState::Blank && old(self).grid()[im][jm].is_mine());
        let ghost noop_hyp = old(self).start && (old(self).grid()[x as int][y as int].state
            == BoardCellState::Flagged || old(self).grid()[x as int][y as int].state
            == BoardCellState::Question || old(self).grid()[x as int][y as int].state
            == BoardCellState::Other || (old(self).grid()[x as int][y as int].state
            == BoardCellState::Discovered && flag_adj_count(
            old(self).grid(),
            old(self).rows as int,
            old(self).cols as int,
            x as int,
            y as int,
        ) != old(self).grid()[x as int][y as int].value));
        let mut queue: Vec<usize> = Vec::new();
        let mut visited: Vec<bool> = Vec::new();
        let ghost mut vset: Set<int> = Set::empty();
        let mut k: usize = 0;
        while k < n
            invariant
                k <= n,
                visited@.len() == k,
                forall|t: int| 0 <= t < k ==> !visited@[t],
            decreases n - k,
        {
            visited.push(false);
            k = k + 1;
        }
        proof {
            lemma_int_range(0, n as int);
        }
        // Chord: a Discovered cell whose flagged-neighbor count matches its
        // value seeds the cascade with every hidden in-bounds neighbor.
        let c0 = get_cell(&self.board, x, y);
        if c0.state() == BoardCellState::Discovered {
            let fcnt = count_flagged_neighbors(&self.board, rows, cols, x, y);
            if fcnt == c0.value() {
                let nbrs = neighbor_indices(x, y, rows, cols);
                let mut q: usize = 0;
                while q < nbrs.len()
                    invariant
                        q <= nbrs@.len(),
                        visited@.len() == n,
                        queue_in_range(queue@, n as int),
                        queue_blank_in(queue@, 0, g1, cols as int),
                        noop_hyp ==> queue@.len() == 0,
                        first_hyp ==> queue@.len() == 0,
                        forall|t2: int|
                            0 <= t2 < n && visited@[t2] ==> queue@.contains(((t2) as usize)),
                        forall|k2: int|
                            0 <= k2 < q && g1[(#[trigger] nbrs@[k2]) as int / cols as int][nbrs@[k2] as int % cols as int].state
                                == BoardCellState::Blank ==> queue@.contains(nbrs@[k2]),
                        vset.finite(),
                        vset.subset_of(set_int_range(0, n as int)),
                        forall|t: int| 0 <= t < n ==> visited@[t] == vset.contains(t),
                        vset.len() <= n,
                    decreases nbrs@.len() - q,
                {
                    let idx = nbrs[q];
                    if !visited[idx] {
                        let ni = idx / cols;
                        let nj = idx % cols;
                        proof {
                            assert(ni * cols + nj == idx && nj < cols && ni < rows)
                                by (nonlinear_arith)
                                requires
                                    ni == idx as int / cols as int,
                                    nj == idx as int % cols as int,
                                    cols >= 1,
                                    idx < rows * cols,
                            ;
                        }
                        if get_cell(&self.board, ni, nj).state() == BoardCellState::Blank {
                            visited[idx] = true;
                            proof {
                                vset = vset.insert(idx as int);
                                lemma_len_subset(vset, set_int_range(0, n as int));
                                lemma_push_contains(queue@, idx);
                            }
                            queue.push(idx);
                        }
                    }
                    q = q + 1;
                }
                proof {
                    if chord_mine_hyp {
                        let (im, jm) = choose|im: int, jm: int|
                            0 <= im < rows && 0 <= jm < cols && in_zone(x as int, y as int, im, jm)
                                && !(im == x && jm == y) && (#[trigger] old(self).grid()[im][jm]).state
                                == BoardCellState::Blank && old(self).grid()[im][jm].is_mine();
                        lemma_seeded_mine(
                            g1,
                            nbrs@,
                            queue@,
                            rows as int,
                            cols as int,
                            x as int,
                            y as int,
                            im,
                            jm,
                        );
                    }
                }
            }
        }
        // A hidden cell seeds the cascade with itself.
        let sidx = lin_index(x, y, rows, cols);
        proof {
            assert(sidx as int / cols as int == x as int && sidx as int % cols as int
                == y as int) by (nonlinear_arith)
                requires
                    sidx == x * cols + y,
                    0 <= y < cols,
                    x >= 0,
                    cols >= 1,
            ;
        }
        if get_cell(&self.board, x, y).state() == BoardCellState::Blank && !visited[sidx] {
            visited[sidx] = true;
            proof {
                vset = vset.insert(sidx as int);
                lemma_len_subset(vset, set_int_range(0, n as int));
                if first_hyp {
                    assert(in_zone(x as int, y as int, x as int, y as int));
                    assert(!g1[x as int][y as int].is_mine());
                }
            }
            queue.push(sidx);
        }
        // Breadth-first cascade.
        let mut head: usize = 0;
        while head < queue.len()
            invariant
                self.rows == s1.rows,
                self.cols == s1.cols,
                self.mines == s1.mines,
                self.game_state == GameState::InProgress,
                self.start == s1.start,
                self.flagged_cells == s1.flagged_cells,
                self.start_time == s1.start_time,
                self.display_time == s1.display_time,
                self.solver == s1.solver,
                self.grid().len() == rows,
                forall|ii: int| 0 <= ii < rows ==> (#[trigger] self.grid()[ii]).len() == cols,
                forall|i: int, j: int|
                    0 <= i < rows && 0 <= j < cols ==> (#[trigger] self.grid()[i][j]) == g1[i][j]
                        || (g1[i][j].state == BoardCellState::Blank && !g1[i][j].is_mine()
                        && self.grid()[i][j] == (BoardCell {
                        state: BoardCellState::Discovered,
                        value: g1[i][j].value,
                    })),
                self.clicked_cells == disc_count(self.grid()),
                mine_count(self.grid()) == mine_count(g1),
                noop_hyp ==> *self == s1 && queue@.len() == 0,
                first_hyp ==> queue_safe_in(queue@, head as int, g1, cols as int),
                chord_mine_hyp ==> queue_has_mine(queue@, head as int, g1, cols as int),
                head <= queue@.len(),
                queue_in_range(queue@, n as int),
                queue_blank_in(queue@, head as int, g1, cols as int),
                visited@.len() == n,
                vset.finite(),
                vset.subset_of(set_int_range(0, n as int)),
                forall|t: int| 0 <= t < n ==> visited@[t] == vset.contains(t),
                vset.len() <= n,
                self.clicked_cells >= s1.clicked_cells,
                mine_hyp ==> head == 0 && queue@ =~= seq![(lin(
                    cols as int,
                    x as int,
                    y as int,
                ) as usize)] && self.grid() == g1 && self.clicked_cells == s1.clicked_cells,
                safe_hyp ==> (head == 0 && queue@ =~= seq![(lin(
                    cols as int,
                    x as int,
                    y as int,
                ) as usize)] && self.grid() == g1) || (self.grid()[x as int][y as int]
                    == (BoardCell {
                    state: BoardCellState::Discovered,
                    value: g1[x as int][y as int].value,
                }) && self.clicked_cells >= s1.clicked_cells + 1),
            decreases 2 * (n - vset.len()) + queue@.len() - head,
        {
            let idx = queue[head];
            head = head + 1;
            let bi = idx / cols;
            let bj = idx % cols;
            proof {
                assert(bi * cols + bj == idx && bj < cols && bi < rows) by (nonlinear_arith)
                    requires
                        bi == idx as int / cols as int,
                        bj == idx as int % cols as int,
                        cols >= 1,
                        idx < rows * cols,
                ;
                if mine_hyp || (safe_hyp && self.grid() == g1) {
                    assert(idx == lin(cols as int, x as int, y as int));
                    assert(bi == x && bj == y) by (nonlinear_arith)
                        requires
                            bi * cols + bj == x * cols + y,
                            bj < cols,
                            y < cols,
                            bi >= 0,
                            x >= 0,
                    ;
                }
            }
            let c = get_cell(&self.board, bi, bj);
            if c.value() == MINE_VALUE {
                // The popped cell is a mine: lose on the spot, mark exactly
                // this cell Exploded, freeze the clock, and stop. On an
                // activating click this cannot happen: every seed is safe
                // and a cascading cell has no mine around it.
                proof {
                    if first_hyp {
                        assert(!g1[bi as int][bj as int].is_mine());
                        assert(false);
                    }
                }
                let t = self.get_display_time();
                let ghost gprev = self.grid();
                set_cell(
                    &mut self.board,
                    bi,
                    bj,
                    BoardCell { state: BoardCellState::Exploded, value: MINE_VALUE },
                );
                self.game_state = GameState::Lost;
                self.display_time = t;
                proof {
                    assert(self.grid()[bi as int][bj as int] == (BoardCell {
                        state: BoardCellState::Exploded,
                        value: MINE_VALUE,
                    }));
                    assert forall|i: int, j: int|
                        0 <= i < rows && 0 <= j < cols && !(i == bi as int && j == bj as int)
                            implies (#[trigger] self.grid()[i][j]).state
                            != BoardCellState::Exploded by {
                        assert(self.grid()[i][j] == gprev[i][j]);
                        assert(g1[i][j].state != BoardCellState::Exploded);
                    }
                }
                return Ok(());
            }
            proof {
                if chord_mine_hyp {
                    let k = choose|k: int|
                        head - 1 <= k < queue@.len() && g1[(#[trigger] queue@[k]) as int / cols as int][queue@[k] as int % cols as int].is_mine();
                    if k == head - 1 {
                        assert(g1[bi as int][bj as int].is_mine());
                        assert(false);
                    }
                    assert(queue_has_mine(queue@, head as int, g1, cols as int));
                }
            }
            if c.state() == BoardCellState::Blank {
                proof {
                    lemma_grid_disc_bounds(self.grid(), cols as int);
                }
                self.clicked_cells = self.clicked_cells + 1;
            }
            let mut cc = c;
            let cont = cc.click();
            let ghost gprev = self.grid();
            set_cell(&mut self.board, bi, bj, cc);
            proof {
                lemma_grid_disc_update(gprev, bi as int, bj as int, cc);
                lemma_grid_mine_update(gprev, bi as int, bj as int, cc);
            }
            if cont {
                let nbrs = neighbor_indices(bi, bj, rows, cols);
                let ghost m0 = 2 * (n as int - vset.len()) + queue@.len();
                let mut q: usize = 0;
                while q < nbrs.len()
                    invariant
                        q <= nbrs@.len(),
                        visited@.len() == n,
                        head <= queue@.len(),
                        queue_in_range(queue@, n as int),
                        queue_blank_in(queue@, head as int, g1, cols as int),
                        first_hyp ==> queue_safe_in(queue@, head as int, g1, cols as int),
                        chord_mine_hyp ==> queue_has_mine(queue@, head as int, g1, cols as int),
                        vset.finite(),
                        vset.subset_of(set_int_range(0, n as int)),
                        forall|t: int| 0 <= t < n ==> visited@[t] == vset.contains(t),
                        vset.len() <= n,
                        2 * (n as int - vset.len()) + queue@.len() <= m0,
                    decreases nbrs@.len() - q,
                {
                    let idx2 = nbrs[q];
                    if !visited[idx2] {
                        let ni = idx2 / cols;
                        let nj = idx2 % cols;
                        proof {
                            assert(ni * cols + nj == idx2 && nj < cols && ni < rows)
                                by (nonlinear_arith)
                                requires
                                    ni == idx2 as int / cols as int,
                                    nj == idx2 as int % cols as int,
                                    cols >= 1,
                                    idx2 < rows * cols,
                            ;
                        }
                        if get_cell(&self.board, ni, nj).state() == BoardCellState::Blank {
                            visited[idx2] = true;
                            proof {
                                vset = vset.insert(idx2 as int);
                                lemma_len_subset(vset, set_int_range(0, n as int));
                                if first_hyp {
                                    let (i2, j2) = choose|i2: int, j2: int|
                                        0 <= i2 < rows && 0 <= j2 < cols && in_zone(
                                            bi as int,
                                            bj as int,
                                            i2,
                                            j2,
                                        ) && nbrs@[q as int] == lin(cols as int, i2, j2);
                                    lemma_lin_injective(cols as int, i2, j2, ni as int, nj as int);
                                    assert(adj_count(g1, rows as int, cols as int, bi as int, bj as int) == 0);
                                    if g1[ni as int][nj as int].is_mine() {
                                        assert(mine_ind(
                                            g1,
                                            rows as int,
                                            cols as int,
                                            ni as int,
                                            nj as int,
                                        ) == 1);
                                        assert(false);
                                    }
                                }
                            }
                            let ghost qprev = queue@;
                            queue.push(idx2);
                            proof {
                                if chord_mine_hyp {
                                    let k = choose|k: int|
                                        head <= k < qprev.len() && g1[(#[trigger] qprev[k]) as int / cols as int][qprev[k] as int % cols as int].is_mine();
                                    assert(queue@[k] == qprev[k]);
                                    assert(queue_has_mine(queue@, head as int, g1, cols as int));
                                }
                            }
                        }
                    }
                    q = q + 1;
                }
            }
        }
        proof {
            if chord_mine_hyp {
                let k = choose|k: int|
                    head <= k < queue@.len() && g1[(#[trigger] queue@[k]) as int / cols as int][queue@[k] as int % cols as int].is_mine();
                assert(false);
            }
            if first_hyp {
                assert forall|i: int, j: int|
                    0 <= i < rows && 0 <= j < cols && !(#[trigger] self.grid()[i][j]).is_mine()
                        implies self.grid()[i][j].value == adj_count(
                        self.grid(),
                        rows as int,
                        cols as int,
                        i,
                        j,
                    ) by {
                    lemma_adj_transfer(g1, self.grid(), rows as int, cols as int, i, j);
                }
            }
        }
        // The cascade is over and no mine was hit: the game is won exactly
        // when every safe cell has been discovered.
        if self.clicked_cells == n - self.mines {
            let t = self.get_display_time();
            self.game_state = GameState::Won;
            self.display_time = t;
        }
        Ok(())
    }

    /// Flag (x, y). On a Discovered cell this is a chord click instead. The
    /// first flag activates the board, keeping its neighborhood mine-free
    /// just as a first click does. On any
    /// other hidden cell the flag cycles one step and the signed
    /// flagged-cell counter takes the step's delta, unclamped. A coordinate
    /// outside the grid is refused; a finished game is left untouched.
    pub fn flag(&mut self, x: usize, y: usize) -> (res: Result<(), BoardError>)
        requires
            old(self).wf(),
            i16::MIN < old(self).flagged_cells < i16::MAX,
            !old(self).start && x < old(self).rows && y < old(self).cols ==> old(self).mines
                + excl_count(
                x as int,
                y as int,
                old(self).rows as int,
                old(self).cols as int,
            ) <= old(self).rows * old(self).cols,
        ensures
            final(self).wf(),
            final(self).rows == old(self).rows,
            final(self).cols == old(self).cols,
            final(self).mines == old(self).mines,
            res is Err <==> !(x < old(self).rows && y < old(self).cols),
            res is Err ==> *final(self) == *old(self),
            x < old(self).rows && y < old(self).cols && old(self).game_state
                != GameState::InProgress ==> *final(self) == *old(self),
            x < old(self).rows && y < old(self).cols && old(self).game_state
                == GameState::InProgress && old(self).grid()[x as int][y as int].state
                == BoardCellState::Discovered ==> {
                &&& final(self).flagged_cells == old(self).flagged_cells
                &&& final(self).grid()[x as int][y as int] == old(self).grid()[x as int][y as int]
                &&& forall|i: int, j: int|
                    0 <= i < old(self).rows && 0 <= j < old(self).cols ==> (#[trigger] final(self).grid()[i][j]).value == old(self).grid()[i][j].value
            },
            x < old(self).rows && y < old(self).cols && old(self).game_state
                == GameState::InProgress && old(self).start && old(self).grid()[x as int][y as int].state != BoardCellState::Discovered ==> {
                &&& final(self).grid()[x as int][y as int] == old(self).grid()[x as int][y as int].cycled()
                &&& forall|i: int, j: int|
                    0 <= i < old(self).rows && 0 <= j < old(self).cols && !(i == x && j == y)
                        ==> (#[trigger] final(self).grid()[i][j]) == old(self).grid()[i][j]
                &&& final(self).flagged_cells == old(self).flagged_cells + old(self).grid()[x as int][y as int].flag_delta()
                &&& final(self).game_state == old(self).game_state
                &&& final(self).clicked_cells == old(self).clicked_cells
            },
            x < old(self).rows && y < old(self).cols && !old(self).start ==> {
                &&& final(self).start
                &&& final(self).flagged_cells == old(self).flagged_cells + 1
                &&& final(self).grid()[x as int][y as int].state == BoardCellState::Flagged
                &&& final(self).game_state == GameState::InProgress
                &&& forall|i: int, j: int|
                    0 <= i < old(self).rows && 0 <= j < old(self).cols && in_zone(
                        x as int,
                        y as int,
                        i,
                        j,
                    ) ==> !(#[trigger] final(self).grid()[i][j]).is_mine()
            },
    {
        if !(x < self.rows && y < self.cols) {
            return Err(BoardError::InvalidCoordinate);
        }
        if self.game_state != GameState::InProgress {
            return Ok(());
        }
        if get_cell(&self.board, x, y).state() == BoardCellState::Discovered {
            // A Discovered target turns the flag into a chord click; the
            // cell itself stays Discovered, so no flag state changes.
            return self.click(x, y);
        }
        if !self.start {
            self.start(x, y, true);
        }
        let mut c = get_cell(&self.board, x, y);
        let delta = c.flag();
        let ghost gprev = self.grid();
        set_cell(&mut self.board, x, y, c);
        self.flagged_cells = self.flagged_cells + (delta as i16);
        proof {
            lemma_grid_disc_update(gprev, x as int, y as int, c);
        }
        Ok(())
    }

    /// The elapsed time to display, in milliseconds: while the game runs,
    /// the clock's reading since activation (zero before activation); once
    /// the game has ended, the frozen value captured at that moment.
    pub fn get_display_time(&self) -> (ms: u64)
        ensures
            self.game_state != GameState::InProgress ==> ms == self.display_time,
            self.game_state == GameState::InProgress && self.start_time is None ==> ms == 0,
    {
        match self.game_state {
            GameState::InProgress => match &self.start_time {
                Some(t) => clock::elapsed_millis(t),
                None => 0,
            },
            _ => self.display_time,
        }
    }

    /// The signed flagged-cell counter; it may exceed the mine count or go
    /// negative relative to it, on purpose.
    pub fn get_flagged_cells(&self) -> (r: i16)
        ensures
            r == self.flagged_cells,
    {
        self.flagged_cells
    }

    /// A read-only view of the grid, for rendering.
    pub fn get_board_cells(&self) -> (r: &BoardCells)
        ensures
            view_grid(*r) == self.grid(),
    {
        &self.board
    }

    /// Once-per-frame reconciliation. While the game runs it only refreshes
    /// the cached elapsed time. Once the game has ended it rewrites every
    /// cell to its reconciled form and leaves the frozen time alone; doing
    /// so twice changes nothing the second time.
    #[verifier::loop_isolation(false)]
    pub fn update(&mut self)
        requires
            old(self).wf(),
        ensures
            final(self).wf(),
            final(self).rows == old(self).rows,
            final(self).cols == old(self).cols,
            final(self).mines == old(self).mines,
            final(self).game_state == old(self).game_state,
            final(self).start == old(self).start,
            final(self).clicked_cells == old(self).clicked_cells,
            final(self).flagged_cells == old(self).flagged_cells,
            final(self).start_time == old(self).start_time,
            old(self).game_state == GameState::InProgress ==> final(self).grid() == old(self).grid(),
            old(self).game_state == GameState::InProgress && !old(self).start ==> final(self).display_time == 0,
            old(self).game_state != GameState::InProgress ==> {
                &&& final(self).display_time == old(self).display_time
                &&& forall|i: int, j: int|
                    0 <= i < old(self).rows && 0 <= j < old(self).cols ==> final(self).grid()[i][j]
                        == reconciled(old(self).grid()[i][j], old(self).game_state)
            },
    {
        let t = self.get_display_time();
        self.display_time = t;
        if self.game_state == GameState::InProgress {
            return ;
        }
        let rows = self.rows;
        let cols = self.cols;
        let mut i: usize = 0;
        while i < rows
            invariant
                i <= rows,
                self.rows == old(self).rows,
                self.cols == old(self).cols,
                self.mines == old(self).mines,
                self.game_state == old(self).game_state,
                self.start == old(self).start,
                self.clicked_cells == old(self).clicked_cells,
                self.flagged_cells == old(self).flagged_cells,
                self.start_time == old(self).start_time,
                self.display_time == old(self).display_time,
                self.solver == old(self).solver,
                self.grid().len() == rows,
                forall|ii: int| 0 <= ii < rows ==> (#[trigger] self.grid()[ii]).len() == cols,
                forall|ii: int, jj: int|
                    0 <= ii < i && 0 <= jj < cols ==> self.grid()[ii][jj] == reconciled(
                        old(self).grid()[ii][jj],
                        old(self).game_state,
                    ),
                forall|ii: int, jj: int|
                    i <= ii < rows && 0 <= jj < cols ==> self.grid()[ii][jj] == old(self).grid()[ii][jj],
            decreases rows - i,
        {
            let mut j: usize = 0;
            while j < cols
                invariant
                    i < rows,
                    j <= cols,
                    self.rows == old(self).rows,
                    self.cols == old(self).cols,
                    self.mines == old(self).mines,
                    self.game_state == old(self).game_state,
                    self.start == old(self).start,
                    self.clicked_cells == old(self).clicked_cells,
                    self.flagged_cells == old(self).flagged_cells,
                    self.start_time == old(self).start_time,
                    self.display_time == old(self).display_time,
                    self.solver == old(self).solver,
                    self.grid().len() == rows,
                    forall|ii: int| 0 <= ii < rows ==> (#[trigger] self.grid()[ii]).len() == cols,
                    forall|ii: int, jj: int|
                        0 <= ii < i && 0 <= jj < cols ==> self.grid()[ii][jj] == reconciled(
                            old(self).grid()[ii][jj],
                            old(self).game_state,
                        ),
                    forall|jj: int|
                        0 <= jj < j ==> self.grid()[i as int][jj] == reconciled(
                            old(self).grid()[i as int][jj],
                            old(self).game_state,
                        ),
                    forall|jj: int|
                        j <= jj < cols ==> self.grid()[i as int][jj] == old(self).grid()[i as int][jj],
                    forall|ii: int, jj: int|
                        i < ii < rows && 0 <= jj < cols ==> self.grid()[ii][jj] == old(self).grid()[ii][jj],
                decreases cols - j,
            {
                let c = get_cell(&self.board, i, j);
                if c.value() != MINE_VALUE {
                    set_cell(
                        &mut self.board,
                        i,
                        j,
                        BoardCell { state: BoardCellState::Discovered, value: c.value() },
                    );
                } else if self.game_state == GameState::Won {
                    set_cell(
                        &mut self.board,
                        i,
                        j,
                        BoardCell { state: BoardCellState::Flagged, value: MINE_VALUE },
                    );
                } else if c.state() != BoardCellState::Exploded {
                    set_cell(
                        &mut self.board,
                        i,
                        j,
                        BoardCell { state: BoardCellState::Discovered, value: MINE_VALUE },
                    );
                }
                j = j + 1;
            }
            i = i + 1;
        }
    }
}

impl Default for Board {
    /// The customary beginner board: 9 x 9 with ten mines.
    fn default() -> (b: Board)
        ensures
            b.wf(),
            b.rows == 9,
            b.cols == 9,
            b.mines == 10,
            !b.start,
            b.game_state == GameState::InProgress,
    {
        Board::new(9, 9, 10)
    }
}

/// On an activated board that is not lost, the game is won exactly when the
/// discovered-cell counter plus the mine count covers the whole grid.
pub proof fn lemma_won_iff_counters(b: Board)
    requires
        b.wf(),
        b.start,
        b.game_state != GameState::Lost,
    ensures
        b.game_state == GameState::Won <==> b.clicked_cells + b.mines == b.rows * b.cols,
{
}

/// Terminal reconciliation is idempotent: a second `update` pass in the same
/// terminal state reproduces the grid the first pass made, cell by cell.
pub proof fn lemma_reconcile_idempotent(c: BoardCell, s: GameState)
    ensures
        reconciled(reconciled(c, s), s) == reconciled(c, s),
{
}

} // verus!
