//! The raster grid: a row-major 2D array of cell values with a sentinel
//! marking missing data ("nodata"). Cell values are opaque 64-bit patterns;
//! a cell is a hole exactly when its pattern equals the sentinel. Reads with
//! out-of-bounds coordinates yield the sentinel, so edge cells see missing
//! neighbours beyond the grid border.

use vstd::prelude::*;

verus! {

/// Largest admitted row or column count. Keeps every coordinate, and every
/// squared distance between two coordinates, comfortably inside the machine
/// integer types used by the search structures.
pub const MAX_DIM: usize = 0x7fff_ffff;

pub struct Grid {
    pub rows: usize,
    pub columns: usize,
    pub nodata: u64,
    pub cells: Vec<u64>,
}

impl Grid {
    /// The cell storage holds exactly `rows * columns` values and both
    /// dimensions are small enough for coordinate arithmetic.
    pub open spec fn well_formed(self) -> bool {
        &&& self.cells@.len() == self.rows * self.columns
        &&& self.rows <= MAX_DIM
        &&& self.columns <= MAX_DIM
    }

    /// The value seen at `(row, col)`: the stored cell inside the grid, the
    /// nodata sentinel outside it.
    pub open spec fn cell(self, row: int, col: int) -> u64 {
        if 0 <= row < self.rows && 0 <= col < self.columns {
            self.cells@[row * self.columns + col]
        } else {
            self.nodata
        }
    }

    /// Whether `(row, col)` reads as missing data.
    pub open spec fn is_hole(self, row: int, col: int) -> bool {
        self.cell(row, col) == self.nodata
    }

    /// Builds a grid, accepting exactly the storage whose length matches the
    /// dimensions (with both dimensions within `MAX_DIM`).
    pub fn new(rows: usize, columns: usize, nodata: u64, cells: Vec<u64>) -> (r: Option<Grid>)
        ensures
            match r {
                Some(g) => {
                    &&& g.well_formed()
                    &&& g.rows == rows
                    &&& g.columns == columns
                    &&& g.nodata == nodata
                    &&& g.cells@ == cells@
                },
                None => !(rows <= MAX_DIM && columns <= MAX_DIM && cells@.len() == rows
                    * columns),
            },
    {
        if rows > MAX_DIM || columns > MAX_DIM {
            return None;
        }
        let len: usize = cells.len();
        match rows.checked_mul(columns) {
            Some(n) => {
                if n == len {
                    Some(Grid { rows, columns, nodata, cells })
                } else {
                    None
                }
            },
            None => None,
        }
    }

    /// Reads the value at `(row, col)`, returning the nodata sentinel for any
    /// coordinate outside the grid.
    pub fn value_at(&self, row: i64, col: i64) -> (r: u64)
        requires
            self.well_formed(),
        ensures
            r == self.cell(row as int, col as int),
    {
        if row < 0 || col < 0 {
            return self.nodata;
        }
        if row >= self.rows as i64 || col >= self.columns as i64 {
            return self.nodata;
        }
        let r: usize = row as usize;
        let c: usize = col as usize;
        let n: usize = self.cells.len();
        assert(r * self.columns + c < self.rows * self.columns) by (nonlinear_arith)
            requires
                r < self.rows,
                c < self.columns,
        ;
        assert(r * self.columns + c < n);
        self.cells[r * self.columns + c]
    }
}

} // verus!
