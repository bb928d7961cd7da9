//! The boundary extractor: scans every valid cell and classifies it as a
//! boundary cell when at least one of its 8-connected neighbours is a hole
//! (reads beyond the grid border count as holes). Each boundary cell yields
//! exactly one sample, `(x, y, value)` with `x` the column and `y` the row,
//! collected in row-major order.

use vstd::prelude::*;
use vstd::arithmetic::div_mod::{
    lemma_fundamental_div_mod, lemma_fundamental_div_mod_converse_div,
    lemma_fundamental_div_mod_converse_mod, lemma_mod_bound,
};

use crate::grid::Grid;

verus! {

/// One boundary sample: the cell's column (`x`), row (`y`) and value.
#[derive(Clone, Copy, Debug, PartialEq, Eq, Structural)]
pub struct Sample {
    pub x: usize,
    pub y: usize,
    pub value: u64,
}

/// Column offset of the `i`-th 8-connected neighbour, clockwise from the
/// upper-right one.
pub open spec fn off_x(i: int) -> int {
    if i == 0 {
        1
    } else if i == 1 {
        1
    } else if i == 2 {
        1
    } else if i == 3 {
        0
    } else if i == 4 {
        -1
    } else if i == 5 {
        -1
    } else if i == 6 {
        -1
    } else {
        0
    }
}

/// Row offset of the `i`-th 8-connected neighbour.
pub open spec fn off_y(i: int) -> int {
    if i == 0 {
        -1
    } else if i == 1 {
        0
    } else if i == 2 {
        1
    } else if i == 3 {
        1
    } else if i == 4 {
        1
    } else if i == 5 {
        0
    } else if i == 6 {
        -1
    } else {
        -1
    }
}

/// A valid cell with at least one hole among its 8 neighbours.
pub open spec fn is_boundary(g: Grid, row: int, col: int) -> bool {
    &&& !g.is_hole(row, col)
    &&& exists|i: int| 0 <= i < 8 && g.is_hole(row + off_y(i), col + off_x(i))
}

/// The sample recorded for the cell at `(row, col)`.
pub open spec fn sample_at(g: Grid, row: int, col: int) -> Sample {
    Sample { x: col as usize, y: row as usize, value: g.cell(row, col) }
}

/// The samples collected from the first `n` cells in row-major order.
pub open spec fn boundary_seq_upto(g: Grid, n: int) -> Seq<Sample>
    decreases n,
{
    if n <= 0 {
        Seq::empty()
    } else {
        let row = (n - 1) / (g.columns as int);
        let col = (n - 1) % (g.columns as int);
        boundary_seq_upto(g, n - 1) + if is_boundary(g, row, col) {
            seq![sample_at(g, row, col)]
        } else {
            Seq::empty()
        }
    }
}

/// All boundary samples of the grid, in row-major order of their cells.
pub open spec fn boundary_seq(g: Grid) -> Seq<Sample> {
    boundary_seq_upto(g, g.rows * g.columns)
}

/// What holds of every collected sample: its cell lies inside the grid, is a
/// boundary cell, and the sample carries that cell's (valid) value.
pub open spec fn sample_ok(g: Grid, s: Sample) -> bool {
    &&& s.x < g.columns
    &&& s.y < g.rows
    &&& is_boundary(g, s.y as int, s.x as int)
    &&& s.value == g.cell(s.y as int, s.x as int)
    &&& s.value != g.nodata
}

/// The row-major position of a sample's cell.
pub open spec fn lin_index(g: Grid, s: Sample) -> int {
    s.y * g.columns + s.x
}

proof fn lemma_boundary_upto_props(g: Grid, n: int)
    requires
        g.well_formed(),
        0 <= n <= g.rows * g.columns,
    ensures
        forall|k: int|
            0 <= k < boundary_seq_upto(g, n).len() ==> sample_ok(
                g,
                #[trigger] boundary_seq_upto(g, n)[k],
            ),
        forall|k: int|
            0 <= k < boundary_seq_upto(g, n).len() ==> lin_index(
                g,
                #[trigger] boundary_seq_upto(g, n)[k],
            ) < n,
        forall|k1: int, k2: int|
            0 <= k1 < k2 < boundary_seq_upto(g, n).len() ==> lin_index(
                g,
                boundary_seq_upto(g, n)[k1],
            ) < lin_index(g, boundary_seq_upto(g, n)[k2]),
    decreases n,
{
    if n > 0 {
        lemma_boundary_upto_props(g, n - 1);
        let cols = g.columns as int;
        assert(cols > 0) by (nonlinear_arith)
            requires
                n > 0,
                n <= g.rows * g.columns,
                cols == g.columns,
        ;
        let row = (n - 1) / cols;
        let col = (n - 1) % cols;
        lemma_mod_bound(n - 1, cols);
        lemma_fundamental_div_mod(n - 1, cols);
        assert(row * cols + col == n - 1) by (nonlinear_arith)
            requires
                n - 1 == cols * row + col,
        ;
        assert(0 <= row && row < g.rows) by (nonlinear_arith)
            requires
                row * cols + col == n - 1,
                n <= g.rows * g.columns,
                cols == g.columns,
                0 <= col < cols,
                0 <= n - 1,
        ;
        let prev = boundary_seq_upto(g, n - 1);
        let cur = boundary_seq_upto(g, n);
        assert(forall|k: int| 0 <= k < prev.len() ==> cur[k] == prev[k]);
        if is_boundary(g, row, col) {
            let s = sample_at(g, row, col);
            assert(cur.len() == prev.len() + 1 && cur[prev.len() as int] == s);
            assert(lin_index(g, s) == n - 1);
            assert(sample_ok(g, s));
        }
    }
}

/// Every boundary sample comes from a cell inside the grid that is a
/// boundary cell, and carries that cell's value, which is not the sentinel.
pub proof fn lemma_boundary_seq_elems(g: Grid)
    requires
        g.well_formed(),
    ensures
        forall|k: int|
            0 <= k < boundary_seq(g).len() ==> sample_ok(g, #[trigger] boundary_seq(g)[k]),
{
    lemma_boundary_upto_props(g, g.rows * g.columns);
}

/// No cell yields more than one sample: the collected samples sit at
/// strictly increasing row-major positions, so all their coordinates differ.
pub proof fn lemma_boundary_seq_no_duplicates(g: Grid)
    requires
        g.well_formed(),
    ensures
        forall|k1: int, k2: int|
            0 <= k1 < k2 < boundary_seq(g).len() ==> !(boundary_seq(g)[k1].x == boundary_seq(
                g,
            )[k2].x && boundary_seq(g)[k1].y == boundary_seq(g)[k2].y),
{
    lemma_boundary_upto_props(g, g.rows * g.columns);
    assert forall|k1: int, k2: int| 0 <= k1 < k2 < boundary_seq(g).len() implies !(boundary_seq(
        g,
    )[k1].x == boundary_seq(g)[k2].x && boundary_seq(g)[k1].y == boundary_seq(g)[k2].y) by {
        assert(lin_index(g, boundary_seq(g)[k1]) < lin_index(g, boundary_seq(g)[k2]));
    }
}

proof fn lemma_boundary_upto_contains(g: Grid, row: int, col: int, n: int)
    requires
        g.well_formed(),
        0 <= row < g.rows,
        0 <= col < g.columns,
        is_boundary(g, row, col),
        row * (g.columns as int) + col < n <= g.rows * g.columns,
    ensures
        boundary_seq_upto(g, n).contains(sample_at(g, row, col)),
    decreases n,
{
    let cols = g.columns as int;
    let idx = row * cols + col;
    if n == idx + 1 {
        lemma_fundamental_div_mod_converse_div(idx, cols, row, col);
        lemma_fundamental_div_mod_converse_mod(idx, cols, row, col);
        let prev = boundary_seq_upto(g, idx);
        assert(boundary_seq_upto(g, n)[prev.len() as int] == sample_at(g, row, col));
    } else {
        lemma_boundary_upto_contains(g, row, col, n - 1);
        let prev = boundary_seq_upto(g, n - 1);
        let j = choose|j: int| 0 <= j < prev.len() && prev[j] == sample_at(g, row, col);
        assert(boundary_seq_upto(g, n)[j] == sample_at(g, row, col));
    }
}

/// Every boundary cell yields a sample: completeness of the extractor pass.
pub proof fn lemma_boundary_seq_complete(g: Grid, row: int, col: int)
    requires
        g.well_formed(),
        0 <= row < g.rows,
        0 <= col < g.columns,
        is_boundary(g, row, col),
    ensures
        boundary_seq(g).contains(sample_at(g, row, col)),
{
    assert(row * (g.columns as int) + col < g.rows * g.columns) by (nonlinear_arith)
        requires
            0 <= row < g.rows,
            0 <= col < g.columns,
    ;
    lemma_boundary_upto_contains(g, row, col, g.rows * g.columns);
}

/// The `i`-th neighbour offset pair, `(column offset, row offset)`.
fn offset(i: usize) -> (r: (i64, i64))
    requires
        i < 8,
    ensures
        r.0 == off_x(i as int),
        r.1 == off_y(i as int),
{
    match i {
        0 => (1, -1),
        1 => (1, 0),
        2 => (1, 1),
        3 => (0, 1),
        4 => (-1, 1),
        5 => (-1, 0),
        6 => (-1, -1),
        _ => (0, -1),
    }
}

/// Decides whether the cell at `(row, col)` is a boundary cell, inspecting
/// its 8 neighbours in the fixed clockwise order and stopping at the first
/// hole found.
pub fn cell_is_boundary(g: &Grid, row: usize, col: usize) -> (r: bool)
    requires
        g.well_formed(),
        row < g.rows,
        col < g.columns,
    ensures
        r == is_boundary(*g, row as int, col as int),
{
    if g.value_at(row as i64, col as i64) == g.nodata {
        return false;
    }
    for i in 0..8usize
        invariant
            g.well_formed(),
            row < g.rows,
            col < g.columns,
            !g.is_hole(row as int, col as int),
            forall|j: int|
                0 <= j < i ==> !g.is_hole(row + off_y(j), col + off_x(j)),
    {
        let (dx, dy) = offset(i);
        let nr: i64 = row as i64 + dy;
        let nc: i64 = col as i64 + dx;
        if g.value_at(nr, nc) == g.nodata {
            return true;
        }
    }
    false
}

/// Runs the extractor pass: every valid cell with a hole among its 8
/// neighbours yields one sample, in row-major order, and no other cell
/// yields any.
pub fn extract_boundary(g: &Grid) -> (r: Vec<Sample>)
    requires
        g.well_formed(),
    ensures
        r@ == boundary_seq(*g),
{
    let mut out: Vec<Sample> = Vec::new();
    let rows = g.rows;
    let columns = g.columns;
    proof {
        assert(out@ =~= boundary_seq_upto(*g, 0 * columns));
    }
    for row in 0..rows
        invariant
            g.well_formed(),
            rows == g.rows,
            columns == g.columns,
            out@ == boundary_seq_upto(*g, row * columns),
    {
        for col in 0..columns
            invariant
                g.well_formed(),
                rows == g.rows,
                columns == g.columns,
                row < rows,
                out@ == boundary_seq_upto(*g, row * columns + col),
        {
            proof {
                let idx = row * columns + col;
                lemma_fundamental_div_mod_converse_div(idx, columns as int, row as int, col as int);
                lemma_fundamental_div_mod_converse_mod(idx, columns as int, row as int, col as int);
                assert(boundary_seq_upto(*g, idx + 1) == boundary_seq_upto(*g, idx)
                    + if is_boundary(*g, row as int, col as int) {
                    seq![sample_at(*g, row as int, col as int)]
                } else {
                    Seq::empty()
                });
            }
            if cell_is_boundary(g, row, col) {
                let value = g.value_at(row as i64, col as i64);
                out.push(Sample { x: col, y: row, value });
                proof {
                    assert(out@ =~= boundary_seq_upto(*g, row * columns + col + 1));
                }
            } else {
                proof {
                    assert(out@ =~= boundary_seq_upto(*g, row * columns + col + 1));
                }
            }
        }
        proof {
            assert((row + 1) * columns == row * columns + columns) by (nonlinear_arith);
        }
    }
    out
}

} // verus!
