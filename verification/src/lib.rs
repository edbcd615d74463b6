//! Per-cell arithmetic mean across a stack of co-registered raster grids.
//!
//! Each cell of each grid is a 64-bit IEEE 754 value carried as its bit
//! pattern (`u64`). A grid designates one *nodata* sentinel; a cell equal to
//! its own grid's sentinel holds no measurement. The overlay folds every
//! valid cell of every input into a running sum and a contribution count,
//! then divides sums by counts, leaving cells that never received a
//! contribution at the output's nodata sentinel.

use vstd::prelude::*;

pub mod bits;
pub mod grid;
pub mod laws;
pub mod overlay;
pub mod parse;

verus! {

/// The one rejection the overlay itself raises: the input list is too short,
/// or an input's extent disagrees with the first input's.
#[derive(Clone, Copy, Debug, PartialEq, Eq, Structural)]
pub enum OverlayError {
    InvalidInput,
}

} // verus!
