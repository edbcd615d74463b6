//! The nodata-aware accumulation itself: fold every valid cell of every
//! input into a running sum and a contribution count, then divide each
//! accumulated cell by its count.

use vstd::prelude::*;

use crate::OverlayError;
use crate::bits::{
    add_bits, div_bits, double_add, double_div, double_of_i16, float_eq, float_eq_bits, int_bits,
    is_nan_bits,
};
use crate::grid::{CountGrid, RasterGrid};

verus! {

/// One accumulation step at a single cell. `state` is the running
/// `(value bits, count)` pair, `z` the input's cell, `in_nodata` the
/// input's own sentinel and `out_nodata` the output's. A cell equal to its
/// input's sentinel contributes nothing; the first contribution overwrites
/// the sentinel and starts the count at one; later contributions add in and
/// count up. The branch tests the *running value* against `out_nodata`, so
/// a running sum that happens to equal the sentinel is treated as untouched
/// and overwritten — the sentinel is the only marker kept.
pub open spec fn step_cell(state: (u64, int), z: u64, in_nodata: u64, out_nodata: u64) -> (
    u64,
    int,
) {
    if float_eq(z, in_nodata) {
        state
    } else if !float_eq(state.0, out_nodata) {
        (add_bits(state.0, z), state.1 + 1)
    } else {
        (z, 1)
    }
}

/// The running `(value bits, count)` pair at cell `(r, c)` after the first
/// `k` inputs have been folded in, starting from `(out_nodata, 0)`.
pub open spec fn acc_cell(
    inputs: Seq<RasterGrid>,
    out_nodata: u64,
    r: int,
    c: int,
    k: int,
) -> (u64, int)
    decreases k,
{
    if k <= 0 {
        (out_nodata, 0)
    } else {
        step_cell(
            acc_cell(inputs, out_nodata, r, c, k - 1),
            inputs[k - 1].spec_cell(r, c),
            inputs[k - 1].nodata,
            out_nodata,
        )
    }
}

/// The terminal division of one cell: an untouched cell (still equal to the
/// sentinel) is left alone; a touched cell becomes `sum / count`; a cell
/// whose value differs from the sentinel while its count is zero cannot
/// arise from the fold above unless the sentinel is NaN, and is set to the
/// bit pattern of positive zero.
pub open spec fn finalize_cell(v: u64, n: int, out_nodata: u64) -> u64 {
    if !float_eq(v, out_nodata) {
        if n > 0 {
            div_bits(v, int_bits(n))
        } else {
            0u64
        }
    } else {
        v
    }
}

/// The output cell at `(r, c)`: the whole fold, then the division.
pub open spec fn mean_cell(inputs: Seq<RasterGrid>, out_nodata: u64, r: int, c: int) -> u64 {
    finalize_cell(
        acc_cell(inputs, out_nodata, r, c, inputs.len() as int).0,
        acc_cell(inputs, out_nodata, r, c, inputs.len() as int).1,
        out_nodata,
    )
}

/// Every input shares the first input's extent.
pub open spec fn extents_agree(inputs: Seq<RasterGrid>) -> bool {
    forall|i: int| 0 <= i < inputs.len() ==> inputs[i].same_extent_as(inputs[0])
}

/// What a successful overlay promises of its output grid: the first
/// input's extent and sentinel, and in every cell the nodata-aware mean of
/// the inputs' cells there.
pub open spec fn overlay_output(inputs: Seq<RasterGrid>, out: RasterGrid) -> bool {
    &&& out.well_formed()
    &&& out.rows == inputs[0].rows
    &&& out.columns == inputs[0].columns
    &&& out.nodata == inputs[0].nodata
    &&& forall|r: int, c: int|
        0 <= r < out.rows && 0 <= c < out.columns ==> out.spec_cell(r, c) == mean_cell(
            inputs,
            inputs[0].nodata,
            r,
            c,
        )
}

/// A cell whose whole fold ends with count one and a non-NaN running value
/// keeps that value unchanged in `out`: its one contribution is divided by
/// one, which is exact.
pub open spec fn single_contribution_kept(inputs: Seq<RasterGrid>, out: RasterGrid) -> bool {
    forall|r: int, c: int|
        0 <= r < out.rows && 0 <= c < out.columns && acc_cell(
            inputs,
            inputs[0].nodata,
            r,
            c,
            inputs.len() as int,
        ).1 == 1 && !is_nan_bits(
            acc_cell(inputs, inputs[0].nodata, r, c, inputs.len() as int).0,
        ) ==> out.spec_cell(r, c) == acc_cell(
            inputs,
            inputs[0].nodata,
            r,
            c,
            inputs.len() as int,
        ).0
}

/// The count after `k` inputs lies between zero and `k`, and a count of
/// zero means the running value is still the sentinel.
pub proof fn lemma_acc_cell_count(inputs: Seq<RasterGrid>, out_nodata: u64, r: int, c: int, k: int)
    requires
        k >= 0,
    ensures
        0 <= acc_cell(inputs, out_nodata, r, c, k).1 <= k,
        acc_cell(inputs, out_nodata, r, c, k).1 == 0 ==> acc_cell(inputs, out_nodata, r, c, k).0
            == out_nodata,
    decreases k,
{
    if k > 0 {
        lemma_acc_cell_count(inputs, out_nodata, r, c, k - 1);
    }
}

/// Computes the per-cell nodata-aware mean of the input grids.
///
/// The first input fixes the extent and the output's nodata sentinel. Any
/// later input with a different extent is rejected, and exactly those
/// runs are rejected; nothing else fails. The cap of 32767 inputs keeps
/// every per-cell count inside its 16-bit counter.
pub fn average_overlay(inputs: &Vec<RasterGrid>) -> (result: Result<RasterGrid, OverlayError>)
    requires
        inputs@.len() >= 1,
        inputs@.len() <= 32767,
        forall|i: int| 0 <= i < inputs@.len() ==> inputs@[i].well_formed(),
    ensures
        match result {
            Ok(out) => {
                &&& extents_agree(inputs@)
                &&& overlay_output(inputs@, out)
                &&& single_contribution_kept(inputs@, out)
            },
            Err(e) => {
                &&& e == OverlayError::InvalidInput
                &&& !extents_agree(inputs@)
            },
        },
{
    let rows = inputs[0].rows;
    let columns = inputs[0].columns;
    let out_nodata = inputs[0].nodata;
    proof {
        assert(inputs@[0].data.len() == inputs@[0].data@.len());
    }
    let mut out = RasterGrid::new_filled(rows, columns, out_nodata, out_nodata);
    let mut counts = CountGrid::new_zeroed(rows, columns);
    let mut k: usize = 0;
    while k < inputs.len()
        invariant
            k <= inputs@.len(),
            1 <= inputs@.len() <= 32767,
            forall|i: int| 0 <= i < inputs@.len() ==> inputs@[i].well_formed(),
            inputs@[0].rows == rows,
            inputs@[0].columns == columns,
            inputs@[0].nodata == out_nodata,
            forall|i: int| 0 <= i < k ==> inputs@[i].same_extent_as(inputs@[0]),
            out.well_formed(),
            out.rows == rows,
            out.columns == columns,
            out.nodata == out_nodata,
            counts.well_formed(),
            counts.rows == rows,
            counts.columns == columns,
            forall|r2: int, c2: int|
                0 <= r2 < rows && 0 <= c2 < columns ==> out.spec_cell(r2, c2) == acc_cell(
                    inputs@,
                    out_nodata,
                    r2,
                    c2,
                    k as int,
                ).0 && counts.spec_cell(r2, c2) as int == acc_cell(
                    inputs@,
                    out_nodata,
                    r2,
                    c2,
                    k as int,
                ).1,
        decreases inputs@.len() - k,
    {
        let inp = &inputs[k];
        if inp.rows != rows || inp.columns != columns {
            proof {
                assert(!inputs@[k as int].same_extent_as(inputs@[0]));
            }
            return Err(OverlayError::InvalidInput);
        }
        let in_nodata = inp.nodata;
        let mut r: usize = 0;
        while r < rows
            invariant
                r <= rows,
                k < inputs@.len() <= 32767,
                forall|i: int| 0 <= i < inputs@.len() ==> inputs@[i].well_formed(),
                inp == inputs@[k as int],
                inp.rows == rows,
                inp.columns == columns,
                inp.nodata == in_nodata,
                out.well_formed(),
                out.rows == rows,
                out.columns == columns,
                out.nodata == out_nodata,
                counts.well_formed(),
                counts.rows == rows,
                counts.columns == columns,
                forall|r2: int, c2: int|
                    0 <= r2 < rows && 0 <= c2 < columns ==> (out.spec_cell(r2, c2) == acc_cell(
                        inputs@,
                        out_nodata,
                        r2,
                        c2,
                        if r2 < r { k + 1 } else { k as int },
                    ).0 && counts.spec_cell(r2, c2) as int == acc_cell(
                        inputs@,
                        out_nodata,
                        r2,
                        c2,
                        if r2 < r { k + 1 } else { k as int },
                    ).1),
            decreases rows - r,
        {
            let mut c: usize = 0;
            while c < columns
                invariant
                    c <= columns,
                    r < rows,
                    k < inputs@.len() <= 32767,
                    forall|i: int| 0 <= i < inputs@.len() ==> inputs@[i].well_formed(),
                    inp == inputs@[k as int],
                    inp.rows == rows,
                    inp.columns == columns,
                    inp.nodata == in_nodata,
                    out.well_formed(),
                    out.rows == rows,
                    out.columns == columns,
                    out.nodata == out_nodata,
                    counts.well_formed(),
                    counts.rows == rows,
                    counts.columns == columns,
                    forall|r2: int, c2: int|
                        0 <= r2 < rows && 0 <= c2 < columns ==> (out.spec_cell(r2, c2) == acc_cell(
                            inputs@,
                            out_nodata,
                            r2,
                            c2,
                            if r2 < r || (r2 == r && c2 < c) { k + 1 } else { k as int },
                        ).0 && counts.spec_cell(r2, c2) as int == acc_cell(
                            inputs@,
                            out_nodata,
                            r2,
                            c2,
                            if r2 < r || (r2 == r && c2 < c) { k + 1 } else { k as int },
                        ).1),
                decreases columns - c,
            {
                proof {
                    lemma_acc_cell_count(inputs@, out_nodata, r as int, c as int, k as int);
                }
                let z = inp.cell(r, c);
                if !float_eq_bits(z, in_nodata) {
                    let cur = out.cell(r, c);
                    if !float_eq_bits(cur, out_nodata) {
                        let s = double_add(cur, z);
                        out.set_cell(r, c, s);
                        let cnt = counts.cell(r, c);
                        counts.set_cell(r, c, cnt + 1);
                    } else {
                        out.set_cell(r, c, z);
                        counts.set_cell(r, c, 1i16);
                    }
                }
                c += 1;
            }
            r += 1;
        }
        k += 1;
    }
    let ghost total: int = inputs@.len() as int;
    let mut r: usize = 0;
    while r < rows
        invariant
            r <= rows,
            total == inputs@.len() as int,
            1 <= inputs@.len() <= 32767,
            inputs@[0].rows == rows,
            inputs@[0].columns == columns,
            inputs@[0].nodata == out_nodata,
            out.well_formed(),
            out.rows == rows,
            out.columns == columns,
            out.nodata == out_nodata,
            counts.well_formed(),
            counts.rows == rows,
            counts.columns == columns,
            forall|r2: int, c2: int|
                0 <= r2 < rows && 0 <= c2 < columns ==> counts.spec_cell(r2, c2) as int
                    == acc_cell(inputs@, out_nodata, r2, c2, total).1,
            forall|r2: int, c2: int|
                0 <= r2 < rows && 0 <= c2 < columns && r2 >= r ==> out.spec_cell(r2, c2)
                    == acc_cell(inputs@, out_nodata, r2, c2, total).0,
            forall|r2: int, c2: int|
                0 <= r2 < r && 0 <= c2 < columns ==> (out.spec_cell(r2, c2) == mean_cell(
                    inputs@,
                    out_nodata,
                    r2,
                    c2,
                ) && (acc_cell(inputs@, out_nodata, r2, c2, total).1 == 1 && !is_nan_bits(
                    acc_cell(inputs@, out_nodata, r2, c2, total).0,
                ) ==> out.spec_cell(r2, c2) == acc_cell(inputs@, out_nodata, r2, c2, total).0)),
        decreases rows - r,
    {
        let mut c: usize = 0;
        while c < columns
            invariant
                c <= columns,
                r < rows,
                total == inputs@.len() as int,
                1 <= inputs@.len() <= 32767,
                out.well_formed(),
                out.rows == rows,
                out.columns == columns,
                out.nodata == out_nodata,
                counts.well_formed(),
                counts.rows == rows,
                counts.columns == columns,
                forall|r2: int, c2: int|
                    0 <= r2 < rows && 0 <= c2 < columns ==> counts.spec_cell(r2, c2) as int
                        == acc_cell(inputs@, out_nodata, r2, c2, total).1,
                forall|r2: int, c2: int|
                    0 <= r2 < rows && 0 <= c2 < columns && (r2 > r || (r2 == r && c2 >= c)) ==>
                        out.spec_cell(r2, c2) == acc_cell(inputs@, out_nodata, r2, c2, total).0,
                forall|r2: int, c2: int|
                    0 <= r2 < rows && 0 <= c2 < columns && (r2 < r || (r2 == r && c2 < c)) ==> (
                    out.spec_cell(r2, c2) == mean_cell(inputs@, out_nodata, r2, c2) && (acc_cell(
                        inputs@,
                        out_nodata,
                        r2,
                        c2,
                        total,
                    ).1 == 1 && !is_nan_bits(acc_cell(inputs@, out_nodata, r2, c2, total).0)
                        ==> out.spec_cell(r2, c2) == acc_cell(
                        inputs@,
                        out_nodata,
                        r2,
                        c2,
                        total,
                    ).0)),
            decreases columns - c,
        {
            proof {
                lemma_acc_cell_count(inputs@, out_nodata, r as int, c as int, total);
            }
            let z = out.cell(r, c);
            if !float_eq_bits(z, out_nodata) {
                let cnt = counts.cell(r, c);
                if cnt > 0i16 {
                    let divisor = double_of_i16(cnt);
                    let q = double_div(z, divisor);
                    out.set_cell(r, c, q);
                } else {
                    out.set_cell(r, c, 0u64);
                }
            }
            c += 1;
        }
        r += 1;
    }
    Ok(out)
}

} // verus!

