//! Fixed-extent, row-major two-dimensional grids: one of binary64 bit
//! patterns for cell values, one of 16-bit counters for per-cell
//! contribution counts.

use vstd::prelude::*;

verus! {

/// A cell's row-major position lies inside the flat backing store.
pub proof fn lemma_row_major_index(rows: int, columns: int, r: int, c: int)
    requires
        0 <= r < rows,
        0 <= c < columns,
    ensures
        0 <= r * columns + c < rows * columns,
{
    assert(0 <= r * columns + c < rows * columns) by (nonlinear_arith)
        requires
            0 <= r < rows,
            0 <= c < columns,
    ;
}

/// Row-major positions are distinct for distinct coordinates.
pub proof fn lemma_row_major_injective(columns: int, r1: int, c1: int, r2: int, c2: int)
    requires
        0 <= c1 < columns,
        0 <= c2 < columns,
        r1 * columns + c1 == r2 * columns + c2,
    ensures
        r1 == r2 && c1 == c2,
{
    assert(r1 == r2 && c1 == c2) by (nonlinear_arith)
        requires
            0 <= c1 < columns,
            0 <= c2 < columns,
            r1 * columns + c1 == r2 * columns + c2,
    ;
}

/// A raster's payload: `rows * columns` binary64 bit patterns in row-major
/// order, together with the raster's own nodata sentinel.
#[derive(Clone)]
pub struct RasterGrid {
    pub rows: usize,
    pub columns: usize,
    pub nodata: u64,
    pub data: Vec<u64>,
}

impl RasterGrid {
    /// The backing store holds exactly one pattern per cell.
    pub open spec fn well_formed(self) -> bool {
        self.data@.len() == self.rows * self.columns
    }

    /// The bit pattern stored at `(r, c)`.
    pub open spec fn spec_cell(self, r: int, c: int) -> u64 {
        self.data@[r * self.columns + c]
    }

    /// Equal row and column counts.
    pub open spec fn same_extent_as(self, other: RasterGrid) -> bool {
        self.rows == other.rows && self.columns == other.columns
    }

    /// A grid of the given extent with every cell holding `fill`.
    pub fn new_filled(rows: usize, columns: usize, nodata: u64, fill: u64) -> (g: RasterGrid)
        requires
            rows * columns <= usize::MAX,
        ensures
            g.well_formed(),
            g.rows == rows,
            g.columns == columns,
            g.nodata == nodata,
            forall|r: int, c: int|
                0 <= r < rows && 0 <= c < columns ==> g.spec_cell(r, c) == fill,
    {
        let n = rows * columns;
        let mut data: Vec<u64> = Vec::new();
        while data.len() < n
            invariant
                data@.len() <= n,
                forall|i: int| 0 <= i < data@.len() ==> data@[i] == fill,
            decreases n - data@.len(),
        {
            data.push(fill);
        }
        let g = RasterGrid { rows, columns, nodata, data };
        proof {
            assert forall|r: int, c: int|
                0 <= r < rows && 0 <= c < columns implies g.spec_cell(r, c) == fill by {
                lemma_row_major_index(rows as int, columns as int, r, c);
            }
        }
        g
    }

    /// Reads the cell at `(r, c)`.
    pub fn cell(&self, r: usize, c: usize) -> (z: u64)
        requires
            self.well_formed(),
            r < self.rows,
            c < self.columns,
        ensures
            z == self.spec_cell(r as int, c as int),
    {
        proof {
            assert(self.data.len() == self.data@.len());
            lemma_row_major_index(self.rows as int, self.columns as int, r as int, c as int);
        }
        self.data[r * self.columns + c]
    }

    /// Writes `z` at `(r, c)`, leaving every other cell and the grid's
    /// extent and sentinel unchanged.
    pub fn set_cell(&mut self, r: usize, c: usize, z: u64)
        requires
            old(self).well_formed(),
            r < old(self).rows,
            c < old(self).columns,
        ensures
            final(self).well_formed(),
            final(self).rows == old(self).rows,
            final(self).columns == old(self).columns,
            final(self).nodata == old(self).nodata,
            final(self).spec_cell(r as int, c as int) == z,
            forall|r2: int, c2: int|
                0 <= r2 < old(self).rows && 0 <= c2 < old(self).columns
                    && !(r2 == r as int && c2 == c as int)
                    ==> final(self).spec_cell(r2, c2) == old(self).spec_cell(r2, c2),
    {
        proof {
            assert(self.data.len() == self.data@.len());
            lemma_row_major_index(self.rows as int, self.columns as int, r as int, c as int);
        }
        let idx = r * self.columns + c;
        self.data[idx] = z;
        proof {
            assert forall|r2: int, c2: int|
                0 <= r2 < old(self).rows && 0 <= c2 < old(self).columns
                    && !(r2 == r as int && c2 == c as int)
                    implies self.spec_cell(r2, c2) == old(self).spec_cell(r2, c2) by {
                lemma_row_major_index(old(self).rows as int, old(self).columns as int, r2, c2);
                if r2 * old(self).columns + c2 == idx {
                    lemma_row_major_injective(
                        old(self).columns as int, r2, c2, r as int, c as int);
                }
            }
        }
    }
}

/// The per-cell contribution counters, co-indexed with a `RasterGrid`.
pub struct CountGrid {
    pub rows: usize,
    pub columns: usize,
    pub data: Vec<i16>,
}

impl CountGrid {
    /// The backing store holds exactly one counter per cell.
    pub open spec fn well_formed(self) -> bool {
        self.data@.len() == self.rows * self.columns
    }

    /// The counter stored at `(r, c)`.
    pub open spec fn spec_cell(self, r: int, c: int) -> i16 {
        self.data@[r * self.columns + c]
    }

    /// A counter grid of the given extent with every counter at zero.
    pub fn new_zeroed(rows: usize, columns: usize) -> (g: CountGrid)
        requires
            rows * columns <= usize::MAX,
        ensures
            g.well_formed(),
            g.rows == rows,
            g.columns == columns,
            forall|r: int, c: int|
                0 <= r < rows && 0 <= c < columns ==> g.spec_cell(r, c) == 0i16,
    {
        let n = rows * columns;
        let mut data: Vec<i16> = Vec::new();
        while data.len() < n
            invariant
                data@.len() <= n,
                forall|i: int| 0 <= i < data@.len() ==> data@[i] == 0i16,
            decreases n - data@.len(),
        {
            data.push(0i16);
        }
        let g = CountGrid { rows, columns, data };
        proof {
            assert forall|r: int, c: int|
                0 <= r < rows && 0 <= c < columns implies g.spec_cell(r, c) == 0i16 by {
                lemma_row_major_index(rows as int, columns as int, r, c);
            }
        }
        g
    }

    /// Reads the counter at `(r, c)`.
    pub fn cell(&self, r: usize, c: usize) -> (n: i16)
        requires
            self.well_formed(),
            r < self.rows,
            c < self.columns,
        ensures
            n == self.spec_cell(r as int, c as int),
    {
        proof {
            assert(self.data.len() == self.data@.len());
            lemma_row_major_index(self.rows as int, self.columns as int, r as int, c as int);
        }
        self.data[r * self.columns + c]
    }

    /// Writes `n` at `(r, c)`, leaving every other counter and the grid's
    /// extent unchanged.
    pub fn set_cell(&mut self, r: usize, c: usize, n: i16)
        requires
            old(self).well_formed(),
            r < old(self).rows,
            c < old(self).columns,
        ensures
            final(self).well_formed(),
            final(self).rows == old(self).rows,
            final(self).columns == old(self).columns,
            final(self).spec_cell(r as int, c as int) == n,
            forall|r2: int, c2: int|
                0 <= r2 < old(self).rows && 0 <= c2 < old(self).columns
                    && !(r2 == r as int && c2 == c as int)
                    ==> final(self).spec_cell(r2, c2) == old(self).spec_cell(r2, c2),
    {
        proof {
            assert(self.data.len() == self.data@.len());
            lemma_row_major_index(self.rows as int, self.columns as int, r as int, c as int);
        }
        let idx = r * self.columns + c;
        self.data[idx] = n;
        proof {
            assert forall|r2: int, c2: int|
                0 <= r2 < old(self).rows && 0 <= c2 < old(self).columns
                    && !(r2 == r as int && c2 == c as int)
                    implies self.spec_cell(r2, c2) == old(self).spec_cell(r2, c2) by {
                lemma_row_major_index(old(self).rows as int, old(self).columns as int, r2, c2);
                if r2 * old(self).columns + c2 == idx {
                    lemma_row_major_injective(
                        old(self).columns as int, r2, c2, r as int, c as int);
                }
            }
        }
    }
}

} // verus!
