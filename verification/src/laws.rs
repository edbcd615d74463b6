//! Properties of the fold that `average_overlay` computes, proved once and
//! for all over the spec-level model.

use vstd::prelude::*;

use crate::bits::{float_eq, is_nan_bits};
use crate::grid::RasterGrid;
use crate::overlay::{
    acc_cell, lemma_acc_cell_count, mean_cell, overlay_output, single_contribution_kept,
};

verus! {

/// Folding a stretch of inputs that are all nodata at `(r, c)` leaves the
/// cell's running state exactly as it stood before the stretch.
proof fn lemma_acc_cell_skipped_stretch(
    inputs: Seq<RasterGrid>,
    out_nodata: u64,
    r: int,
    c: int,
    k0: int,
    k: int,
)
    requires
        0 <= k0 <= k,
        forall|i: int|
            k0 <= i < k ==> float_eq(#[trigger] inputs[i].spec_cell(r, c), inputs[i].nodata),
    ensures
        acc_cell(inputs, out_nodata, r, c, k) == acc_cell(inputs, out_nodata, r, c, k0),
    decreases k - k0,
{
    if k > k0 {
        lemma_acc_cell_skipped_stretch(inputs, out_nodata, r, c, k0, k - 1);
    }
}

/// A cell that is nodata in every input remains the output's nodata value:
/// no input contributes, so the running state never leaves `(out_nodata, 0)`,
/// and the terminal division leaves a cell that still equals the (non-NaN)
/// sentinel alone.
pub proof fn lemma_all_nodata_stays_nodata(
    inputs: Seq<RasterGrid>,
    out_nodata: u64,
    r: int,
    c: int,
)
    requires
        !is_nan_bits(out_nodata),
        forall|i: int|
            0 <= i < inputs.len() ==> float_eq(
                #[trigger] inputs[i].spec_cell(r, c),
                inputs[i].nodata,
            ),
    ensures
        mean_cell(inputs, out_nodata, r, c) == out_nodata,
{
    lemma_acc_cell_skipped_stretch(inputs, out_nodata, r, c, 0, inputs.len() as int);
}

/// If exactly one input holds a valid value at `(r, c)`, the whole fold
/// ends in `(that value, 1)`: the cell still equals the (non-NaN) sentinel
/// when the one contribution arrives, so it is overwritten, and every other
/// input is skipped.
pub proof fn lemma_sole_contribution(
    inputs: Seq<RasterGrid>,
    out_nodata: u64,
    r: int,
    c: int,
    j: int,
)
    requires
        !is_nan_bits(out_nodata),
        0 <= j < inputs.len(),
        !float_eq(inputs[j].spec_cell(r, c), inputs[j].nodata),
        forall|i: int|
            0 <= i < inputs.len() && i != j ==> float_eq(
                #[trigger] inputs[i].spec_cell(r, c),
                inputs[i].nodata,
            ),
    ensures
        acc_cell(inputs, out_nodata, r, c, inputs.len() as int).0 == inputs[j].spec_cell(r, c),
        acc_cell(inputs, out_nodata, r, c, inputs.len() as int).1 == 1,
{
    lemma_acc_cell_skipped_stretch(inputs, out_nodata, r, c, 0, j);
    assert(acc_cell(inputs, out_nodata, r, c, j + 1) == (inputs[j].spec_cell(r, c), 1int));
    lemma_acc_cell_skipped_stretch(inputs, out_nodata, r, c, j + 1, inputs.len() as int);
}

/// If only one input has a valid, non-NaN value `v` at a cell and the rest
/// are nodata there, a successful overlay's output holds exactly `v` at
/// that cell — not `v` divided by anything.
pub proof fn lemma_single_valid_value_kept(
    inputs: Seq<RasterGrid>,
    out: RasterGrid,
    r: int,
    c: int,
    j: int,
)
    requires
        inputs.len() >= 1,
        overlay_output(inputs, out),
        single_contribution_kept(inputs, out),
        !is_nan_bits(inputs[0].nodata),
        0 <= r < out.rows,
        0 <= c < out.columns,
        0 <= j < inputs.len(),
        !float_eq(inputs[j].spec_cell(r, c), inputs[j].nodata),
        !is_nan_bits(inputs[j].spec_cell(r, c)),
        forall|i: int|
            0 <= i < inputs.len() && i != j ==> float_eq(
                #[trigger] inputs[i].spec_cell(r, c),
                inputs[i].nodata,
            ),
    ensures
        out.spec_cell(r, c) == inputs[j].spec_cell(r, c),
{
    lemma_sole_contribution(inputs, inputs[0].nodata, r, c, j);
}

/// The count at `(r, c)` is positive exactly when some already-folded
/// input holds a valid value there.
pub proof fn lemma_count_positive_iff_valid(
    inputs: Seq<RasterGrid>,
    out_nodata: u64,
    r: int,
    c: int,
    k: int,
)
    requires
        0 <= k,
    ensures
        acc_cell(inputs, out_nodata, r, c, k).1 > 0 <==> exists|i: int|
            0 <= i < k && !float_eq(#[trigger] inputs[i].spec_cell(r, c), inputs[i].nodata),
    decreases k,
{
    lemma_acc_cell_count(inputs, out_nodata, r, c, k);
    if k > 0 {
        lemma_count_positive_iff_valid(inputs, out_nodata, r, c, k - 1);
        lemma_acc_cell_count(inputs, out_nodata, r, c, k - 1);
        if !float_eq(inputs[k - 1].spec_cell(r, c), inputs[k - 1].nodata) {
            assert(0 <= k - 1 < k && !float_eq(inputs[k - 1].spec_cell(r, c), inputs[k - 1].nodata));
        }
    }
}

/// Whether any input at all contributes to a cell does not depend on the
/// order of the input list; and a cell no input contributes to ends at the
/// (non-NaN) sentinel under either order. Order independence of the
/// *values* of contributed cells is not a fact of binary64 arithmetic:
/// rounding makes its addition non-associative, so three or more
/// contributions summed in different orders may round differently.
pub proof fn lemma_touched_cells_order_independent(
    a: Seq<RasterGrid>,
    b: Seq<RasterGrid>,
    out_nodata: u64,
    r: int,
    c: int,
)
    requires
        !is_nan_bits(out_nodata),
        a.to_multiset() == b.to_multiset(),
    ensures
        acc_cell(a, out_nodata, r, c, a.len() as int).1 > 0 <==> acc_cell(
            b,
            out_nodata,
            r,
            c,
            b.len() as int,
        ).1 > 0,
        acc_cell(a, out_nodata, r, c, a.len() as int).1 == 0 ==> mean_cell(a, out_nodata, r, c)
            == mean_cell(b, out_nodata, r, c),
{
    broadcast use vstd::seq_lib::group_to_multiset_ensures;

    lemma_count_positive_iff_valid(a, out_nodata, r, c, a.len() as int);
    lemma_count_positive_iff_valid(b, out_nodata, r, c, b.len() as int);
    lemma_acc_cell_count(a, out_nodata, r, c, a.len() as int);
    lemma_acc_cell_count(b, out_nodata, r, c, b.len() as int);
    assert forall|i: int|
        0 <= i < a.len() && !float_eq(
            #[trigger] a[i].spec_cell(r, c),
            a[i].nodata,
        ) implies exists|i2: int|
        0 <= i2 < b.len() && !float_eq(#[trigger] b[i2].spec_cell(r, c), b[i2].nodata) by {
        assert(a.contains(a[i]));
        assert(a.to_multiset().count(a[i]) > 0);
        assert(b.to_multiset().count(a[i]) > 0);
        assert(b.contains(a[i]));
        let i2 = choose|i2: int| 0 <= i2 < b.len() && b[i2] == a[i];
        assert(0 <= i2 < b.len() && !float_eq(b[i2].spec_cell(r, c), b[i2].nodata));
    }
    assert forall|i: int|
        0 <= i < b.len() && !float_eq(
            #[trigger] b[i].spec_cell(r, c),
            b[i].nodata,
        ) implies exists|i2: int|
        0 <= i2 < a.len() && !float_eq(#[trigger] a[i2].spec_cell(r, c), a[i2].nodata) by {
        assert(b.contains(b[i]));
        assert(b.to_multiset().count(b[i]) > 0);
        assert(a.to_multiset().count(b[i]) > 0);
        assert(a.contains(b[i]));
        let i2 = choose|i2: int| 0 <= i2 < a.len() && a[i2] == b[i];
        assert(0 <= i2 < a.len() && !float_eq(a[i2].spec_cell(r, c), a[i2].nodata));
    }
}

/// Two successful runs over the same input list produce bitwise-identical
/// output grids: the contract pins every cell to the same fold of the same
/// inputs, so the output is a function of the input list alone.
pub proof fn lemma_rerun_identical(inputs: Seq<RasterGrid>, out1: RasterGrid, out2: RasterGrid)
    requires
        inputs.len() >= 1,
        overlay_output(inputs, out1),
        overlay_output(inputs, out2),
    ensures
        out1.rows == out2.rows,
        out1.columns == out2.columns,
        out1.nodata == out2.nodata,
        out1.data@ == out2.data@,
{
    let rows = out1.rows as int;
    let cols = out1.columns as int;
    assert forall|idx: int| 0 <= idx < out1.data@.len() implies out1.data@[idx]
        == out2.data@[idx] by {
        assert(cols > 0) by (nonlinear_arith)
            requires
                rows >= 0,
                cols >= 0,
                0 <= idx < rows * cols,
        ;
        let r = idx / cols;
        let c = idx % cols;
        vstd::arithmetic::div_mod::lemma_fundamental_div_mod(idx, cols);
        vstd::arithmetic::div_mod::lemma_mod_division_less_than_divisor(idx, cols);
        assert(0 <= r < rows) by (nonlinear_arith)
            requires
                0 <= idx < rows * cols,
                idx == cols * r + c,
                0 <= c < cols,
        ;
        assert(out1.spec_cell(r, c) == out2.spec_cell(r, c));
        assert(r * cols + c == idx) by (nonlinear_arith)
            requires
                idx == cols * r + c,
        ;
    }
    assert(out1.data@ =~= out2.data@);
}

} // verus!
