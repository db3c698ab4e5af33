use pbfextractor::decode_height_sample;
use pbfextractor::interpolate;
use pbfextractor::sample_offset;
use pbfextractor::sample_plan;
use pbfextractor::tile_cell;

#[test]
fn samples_decode_big_endian_signed() {
    assert_eq!(decode_height_sample(0x00, 0x00), 0);
    assert_eq!(decode_height_sample(0x01, 0x00), 256);
    assert_eq!(decode_height_sample(0x00, 0xFF), 255);
    assert_eq!(decode_height_sample(0x7F, 0xFF), 32767);
    assert_eq!(decode_height_sample(0xFF, 0xFF), -1);
    assert_eq!(decode_height_sample(0x80, 0x00), -32768);
}

#[test]
fn tile_cell_is_the_whole_degree() {
    assert_eq!(tile_cell(473_600_000, 91_234_567), (47, 9));
    assert_eq!(tile_cell(0, 0), (0, 0));
    assert_eq!(tile_cell(9_999_999, 1_789_999_999), (0, 178));
}

#[test]
fn plan_at_a_grid_point_collapses_to_one_sample() {
    // A whole degree: the south-west position of the north edge's row.
    let p = sample_plan(470_000_000, 90_000_000);
    assert_eq!(p.row_floor, 3601);
    assert_eq!(p.row_ceil, 3601);
    assert_eq!(p.col_floor, 0);
    assert_eq!(p.col_ceil, 0);
    assert_eq!(p.lat_frac, 0);
    assert_eq!(p.lng_frac, 0);
}

#[test]
fn plan_mid_cell_brackets_the_position() {
    // Half a degree up: 1800 rows above the south edge, fraction zero.
    let p = sample_plan(475_000_000, 90_000_000);
    assert_eq!(p.row_floor, 1801);
    assert_eq!(p.row_ceil, 1801);
    assert_eq!(p.lat_frac, 0);
    // A half sample step in longitude: between columns 0 and 1.
    let q = sample_plan(470_000_000, 90_001_389);
    assert_eq!(q.col_floor, 0);
    assert_eq!(q.col_ceil, 1);
    assert_eq!(q.lng_frac, 5_000_400);
}

#[test]
fn sample_offsets_are_row_major_two_byte() {
    assert_eq!(sample_offset(1, 0), 0);
    assert_eq!(sample_offset(1, 1), 2);
    assert_eq!(sample_offset(2, 0), 7202);
    assert_eq!(sample_offset(3601, 3600), (3600 * 3601 + 3600) * 2);
}

#[test]
fn interpolation_at_a_corner_returns_the_raw_sample() {
    assert_eq!(interpolate(1234, -77, 500, 9, 0, 0), 1_234_000);
    assert_eq!(interpolate(-56, 1, 2, 3, 0, 0), -56_000);
}

#[test]
fn interpolation_of_agreeing_samples_is_exact() {
    assert_eq!(interpolate(250, 250, 250, 250, 3_456_789, 9_876_543), 250_000);
}

#[test]
fn interpolation_at_the_cell_center_averages() {
    assert_eq!(interpolate(0, 2, 4, 6, 5_000_000, 5_000_000), 3_000);
}

#[test]
fn missing_tile_defaults_to_sea_level() {
    // The pipeline records a node whose tile the host could not find with
    // height zero; the elevation gain on such edges is zero.
    let n = pbfextractor::NodeInfo::new(1, 470_000_000, 90_000_000, 0);
    assert_eq!(n.height, 0);
}
