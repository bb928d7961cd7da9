//! The hole interpolator pass. Every valid cell is carried through
//! unchanged; every hole cell is given the list of boundary samples within
//! the configured radius of it, paired with their squared distances, with
//! zero-distance pairs excluded — exactly the contributions the
//! inverse-square-distance weighting combines. The weighted reduction
//! itself works on the raw floating-point cell values and is left to the
//! caller; an empty contribution list marks the degenerate case in which
//! no estimate exists.

use vstd::prelude::*;

use crate::boundary::{
    boundary_seq, extract_boundary, lemma_boundary_seq_elems, sample_ok, Sample,
};
use crate::grid::{Grid, MAX_DIM};
use crate::search::{
    coord_ok, in_range, pair_at, search_spec, sq_dist, FixedRadiusSearch, MAX_RADIUS,
};

verus! {

/// What the interpolator decides for one cell: keep the stored value, or
/// estimate it from the given `(value, squared distance)` contributions.
pub enum CellPlan {
    Keep(u64),
    Estimate(Vec<(u64, u64)>),
}

/// The pairs that take part in the weighting: those with positive squared
/// distance. A zero-distance match contributes to neither sum.
pub open spec fn positive_pairs(s: Seq<(u64, u64)>) -> Seq<(u64, u64)> {
    s.filter(|p: (u64, u64)| p.1 > 0)
}

/// The contributions for the hole at `(row, col)`: the boundary samples
/// within `radius` of it, paired with their squared distances, without the
/// zero-distance pairs.
pub open spec fn hole_pairs(g: Grid, row: int, col: int, radius: int) -> Seq<(u64, u64)> {
    positive_pairs(search_spec(boundary_seq(g), col, row, radius))
}

/// The effective search radius for a configured filter size: even sizes are
/// forced odd by adding one, odd sizes are used unchanged.
pub open spec fn effective_radius(filter_size: int) -> int {
    if filter_size % 2 == 0 {
        filter_size + 1
    } else {
        filter_size
    }
}

/// Forces the filter size odd: size `2k` becomes `2k + 1`, size `2k + 1`
/// is returned unchanged. The result is always odd and at least one.
pub fn effective_filter_size(filter_size: usize) -> (r: usize)
    requires
        filter_size % 2 == 1 || filter_size < usize::MAX,
    ensures
        r == effective_radius(filter_size as int),
        r % 2 == 1,
        r >= 1,
{
    if filter_size % 2 == 0 {
        filter_size + 1
    } else {
        filter_size
    }
}

/// What the plan must hold for the cell at `(row, col)`.
pub open spec fn plan_cell_ok(g: Grid, radius: int, row: int, col: int, p: CellPlan) -> bool {
    if g.is_hole(row, col) {
        p matches CellPlan::Estimate(v) && v@ == hole_pairs(g, row, col, radius)
    } else {
        p matches CellPlan::Keep(z) && z == g.cell(row, col)
    }
}

/// The plan holds the right decision at `(row, col)` of the grid.
pub open spec fn plan_ok_at(g: Grid, radius: int, plan: Seq<CellPlan>, row: int, col: int) -> bool {
    plan_cell_ok(g, radius, row, col, plan[row * g.columns + col])
}

/// The plan carries the cell at `(row, col)` through unchanged.
pub open spec fn plan_keeps_cell(g: Grid, plan: Seq<CellPlan>, row: int, col: int) -> bool {
    plan[row * g.columns + col] matches CellPlan::Keep(z) && z == g.cell(row, col)
}

fn keep_positive(v: &Vec<(u64, u64)>) -> (r: Vec<(u64, u64)>)
    ensures
        r@ == positive_pairs(v@),
{
    let mut out: Vec<(u64, u64)> = Vec::new();
    let n = v.len();
    proof {
        assert(out@ =~= positive_pairs(v@.take(0))) by {
            reveal(Seq::filter);
        }
    }
    for k in 0..n
        invariant
            n == v@.len(),
            out@ == positive_pairs(v@.take(k as int)),
    {
        let p = v[k];
        if p.1 > 0 {
            out.push(p);
        }
        proof {
            let taken = v@.take(k + 1);
            assert(taken.drop_last() =~= v@.take(k as int));
            assert(taken =~= v@.take(k as int).push(p));
            Seq::lemma_filter_push(v@.take(k as int), p, |q: (u64, u64)| q.1 > 0);
            assert(out@ =~= positive_pairs(taken));
        }
    }
    proof {
        assert(v@.take(n as int) =~= v@);
    }
    out
}

proof fn lemma_rowmajor_before(r2: int, c2: int, row: int, col: int, columns: int)
    by (nonlinear_arith)
    requires
        0 <= c2 < columns,
        0 <= r2,
        0 <= col,
        r2 < row || (r2 == row && c2 < col),
    ensures
        r2 * columns + c2 < row * columns + col,
{
}

proof fn lemma_search_pairs_positive(samples: Seq<Sample>, x: int, y: int, radius: int)
    requires
        forall|k: int| 0 <= k < samples.len() ==> coord_ok(#[trigger] samples[k]),
        forall|k: int|
            0 <= k < samples.len() ==> !((#[trigger] samples[k]).x == x && samples[k].y == y),
        0 <= x <= MAX_DIM,
        0 <= y <= MAX_DIM,
    ensures
        forall|k: int|
            0 <= k < search_spec(samples, x, y, radius).len() ==> (#[trigger] search_spec(
                samples,
                x,
                y,
                radius,
            )[k]).1 > 0,
    decreases samples.len(),
{
    if samples.len() > 0 {
        let pre = samples.drop_last();
        assert(forall|k: int| 0 <= k < pre.len() ==> coord_ok(#[trigger] pre[k]));
        assert(forall|k: int|
            0 <= k < pre.len() ==> !((#[trigger] pre[k]).x == x && pre[k].y == y));
        lemma_search_pairs_positive(pre, x, y, radius);
        let s = samples.last();
        let d = sq_dist(s.x as int, s.y as int, x, y);
        assert(0 < d <= 0x7fff_ffff * 0x7fff_ffff * 2) by (nonlinear_arith)
            requires
                0 <= s.x <= MAX_DIM,
                0 <= s.y <= MAX_DIM,
                0 <= x <= MAX_DIM,
                0 <= y <= MAX_DIM,
                !(s.x == x && s.y == y),
                d == sq_dist(s.x as int, s.y as int, x, y),
                MAX_DIM == 0x7fff_ffff,
        ;
        if in_range(s, x, y, radius) {
            assert(pair_at(s, x, y).1 > 0);
            let cur = search_spec(samples, x, y, radius);
            let precur = search_spec(pre, x, y, radius);
            assert(forall|k: int| 0 <= k < precur.len() ==> cur[k] == precur[k]);
            assert(cur[cur.len() - 1] == pair_at(s, x, y));
        }
    }
}

proof fn lemma_positive_pairs_identity(s: Seq<(u64, u64)>)
    requires
        forall|k: int| 0 <= k < s.len() ==> (#[trigger] s[k]).1 > 0,
    ensures
        positive_pairs(s) == s,
    decreases s.len(),
{
    reveal(Seq::filter);
    if s.len() > 0 {
        let pre = s.drop_last();
        assert(forall|k: int| 0 <= k < pre.len() ==> (#[trigger] pre[k]).1 > 0);
        lemma_positive_pairs_identity(pre);
        assert(positive_pairs(s) =~= s);
    }
}

/// No boundary self-reference: a hole's own coordinate never occurs among
/// the boundary samples (a boundary cell has a valid value, a hole does
/// not), so every pair a query at a hole reports has positive squared
/// distance, and the zero-distance exclusion drops nothing there.
pub proof fn lemma_no_boundary_self_reference(g: Grid, row: int, col: int, radius: int)
    requires
        g.well_formed(),
        0 <= row < g.rows,
        0 <= col < g.columns,
        g.is_hole(row, col),
    ensures
        forall|k: int|
            0 <= k < boundary_seq(g).len() ==> !((#[trigger] boundary_seq(g)[k]).x == col
                && boundary_seq(g)[k].y == row),
        forall|k: int|
            0 <= k < search_spec(boundary_seq(g), col, row, radius).len() ==> (
            #[trigger] search_spec(boundary_seq(g), col, row, radius)[k]).1 > 0,
        positive_pairs(search_spec(boundary_seq(g), col, row, radius)) == search_spec(
            boundary_seq(g),
            col,
            row,
            radius,
        ),
{
    lemma_boundary_seq_elems(g);
    let bs = boundary_seq(g);
    assert forall|k: int| 0 <= k < bs.len() implies !((#[trigger] bs[k]).x == col && bs[k].y
        == row) by {
        assert(sample_ok(g, bs[k]));
        if bs[k].x == col && bs[k].y == row {
            assert(bs[k].value == g.cell(row, col));
        }
    }
    assert forall|k: int| 0 <= k < bs.len() implies coord_ok(#[trigger] bs[k]) by {
        assert(sample_ok(g, bs[k]));
    }
    lemma_search_pairs_positive(bs, col, row, radius);
    lemma_positive_pairs_identity(search_spec(bs, col, row, radius));
}

/// Runs both passes over the grid and returns one decision per cell in
/// row-major order: valid cells are kept unchanged, and each hole receives
/// the contributions of the boundary samples within the effective radius of
/// it, zero-distance pairs excluded. When no cell of the grid is a hole,
/// every cell of the output is the input cell, unchanged.
pub fn fill_plan(input: &Grid, filter_size: usize) -> (r: Vec<CellPlan>)
    requires
        input.well_formed(),
        filter_size <= MAX_RADIUS,
    ensures
        r@.len() == input.rows * input.columns,
        forall|row: int, col: int|
            0 <= row < input.rows && 0 <= col < input.columns ==> #[trigger] plan_ok_at(
                *input,
                effective_radius(filter_size as int),
                r@,
                row,
                col,
            ),
        (forall|row: int, col: int|
            0 <= row < input.rows && 0 <= col < input.columns ==> !(#[trigger] input.is_hole(
                row,
                col,
            ))) ==> (forall|row: int, col: int|
            0 <= row < input.rows && 0 <= col < input.columns ==> #[trigger] plan_keeps_cell(
                *input,
                r@,
                row,
                col,
            )),
{
    let ghost radius_spec = effective_radius(filter_size as int);
    let radius = effective_filter_size(filter_size);
    let samples = extract_boundary(input);
    proof {
        lemma_boundary_seq_elems(*input);
    }
    let mut frs = FixedRadiusSearch::new(radius);
    let ns = samples.len();
    proof {
        assert(frs.spec_samples() =~= samples@.take(0));
    }
    for k in 0..ns
        invariant
            input.well_formed(),
            frs.well_formed(),
            frs.spec_radius() == radius,
            radius == radius_spec,
            1 <= radius <= MAX_RADIUS,
            samples@ == boundary_seq(*input),
            ns == samples@.len(),
            frs.spec_samples() == samples@.take(k as int),
            forall|j: int|
                0 <= j < samples@.len() ==> sample_ok(*input, #[trigger] samples@[j]),
    {
        let s = samples[k];
        frs.insert(s.x, s.y, s.value);
        proof {
            assert(frs.spec_samples() =~= samples@.take(k + 1));
        }
    }
    proof {
        assert(samples@.take(ns as int) =~= samples@);
    }
    let rows = input.rows;
    let columns = input.columns;
    let mut plan: Vec<CellPlan> = Vec::new();
    proof {
        assert(0 * columns == 0) by (nonlinear_arith);
    }
    for row in 0..rows
        invariant
            input.well_formed(),
            frs.well_formed(),
            frs.spec_radius() == radius,
            radius == radius_spec,
            1 <= radius <= MAX_RADIUS,
            rows == input.rows,
            columns == input.columns,
            frs.spec_samples() == boundary_seq(*input),
            plan@.len() == row * columns,
            forall|r2: int, c2: int|
                0 <= r2 < row && 0 <= c2 < columns ==> #[trigger] plan_ok_at(
                    *input,
                    radius_spec,
                    plan@,
                    r2,
                    c2,
                ),
    {
        for col in 0..columns
            invariant
                input.well_formed(),
                frs.well_formed(),
                frs.spec_radius() == radius,
                radius == radius_spec,
                1 <= radius <= MAX_RADIUS,
                rows == input.rows,
                columns == input.columns,
                row < rows,
                frs.spec_samples() == boundary_seq(*input),
                plan@.len() == row * columns + col,
                forall|r2: int, c2: int|
                    (0 <= r2 < row && 0 <= c2 < columns) || (r2 == row && 0 <= c2 < col)
                        ==> #[trigger] plan_ok_at(*input, radius_spec, plan@, r2, c2),
        {
            let ghost prev = plan@;
            let z = input.value_at(row as i64, col as i64);
            if z != input.nodata {
                plan.push(CellPlan::Keep(z));
            } else {
                let ret = frs.search(col, row);
                let pos = keep_positive(&ret);
                plan.push(CellPlan::Estimate(pos));
            }
            proof {
                assert forall|r2: int, c2: int|
                    (0 <= r2 < row && 0 <= c2 < columns) || (r2 == row && 0 <= c2 < col
                        + 1) implies #[trigger] plan_ok_at(
                    *input,
                    radius_spec,
                    plan@,
                    r2,
                    c2,
                ) by {
                    if r2 == row && c2 == col {
                        assert(plan@[row * columns + col] == plan@.last());
                    } else {
                        lemma_rowmajor_before(r2, c2, row as int, col as int, columns as int);
                        assert(plan@[r2 * columns + c2] == prev[r2 * columns + c2]);
                        assert(plan_ok_at(*input, radius_spec, prev, r2, c2));
                    }
                }
            }
        }
        proof {
            assert((row + 1) * columns == row * columns + columns) by (nonlinear_arith);
        }
    }
    proof {
        if forall|row: int, col: int|
            0 <= row < input.rows && 0 <= col < input.columns ==> !(#[trigger] input.is_hole(
                row,
                col,
            )) {
            assert forall|row: int, col: int|
                0 <= row < input.rows && 0 <= col < input.columns implies #[trigger] plan_keeps_cell(
                *input,
                plan@,
                row,
                col,
            ) by {
                assert(plan_ok_at(*input, radius_spec, plan@, row, col));
                assert(!input.is_hole(row, col));
            }
        }
    }
    plan
}

} // verus!
