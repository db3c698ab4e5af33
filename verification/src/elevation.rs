//! Elevation sampling from one-degree tiles: locating the enclosing tile,
//! the byte offsets of the four bounding raw samples, and exact bilinear
//! interpolation between them.
//!
//! A tile is a 3601 by 3601 grid of big-endian 16-bit signed samples, row
//! major from north to south. The host opens the tile file and reads the
//! four samples; all arithmetic around those reads lives here, carried out
//! exactly over decimicro-degree fractions.

use vstd::prelude::*;

verus! {

/// Decimicro-degrees per degree: the denominator of all coordinate
/// fractions.
pub const COORD_SCALE: i64 = 10_000_000;

/// Rows (and columns) of samples in a tile.
pub const TILE_ROWS: u64 = 3601;

/// The signed 16-bit big-endian reading of two bytes.
pub open spec fn spec_i16_be(b0: u8, b1: u8) -> int {
    if b0 < 128 {
        b0 * 256 + b1
    } else {
        b0 * 256 + b1 - 65536
    }
}

/// Decodes one raw elevation sample: two bytes, big endian, signed.
pub fn decode_height_sample(b0: u8, b1: u8) -> (h: i16)
    ensures
        h as int == spec_i16_be(b0, b1),
{
    if b0 < 128 {
        (b0 as i16) * 256 + (b1 as i16)
    } else {
        ((b0 as i32) * 256 + (b1 as i32) - 65536) as i16
    }
}

/// The integer degree cell enclosing a point, for both tile naming and
/// offset computation.
pub fn tile_cell(lat: i64, long: i64) -> (r: (u64, u64))
    requires
        0 <= lat,
        0 <= long,
    ensures
        r.0 == (lat as int) / (COORD_SCALE as int),
        r.1 == (long as int) / (COORD_SCALE as int),
{
    ((lat / COORD_SCALE) as u64, (long / COORD_SCALE) as u64)
}

/// Where inside a tile a point's four bounding samples lie: one-based rows
/// counted from the north edge, zero-based columns from the west edge, and
/// the fractional offsets, in decimicro units, that weight the
/// interpolation.
pub struct SamplePlan {
    pub row_floor: u64,
    pub row_ceil: u64,
    pub col_floor: u64,
    pub col_ceil: u64,
    pub lat_frac: u64,
    pub lng_frac: u64,
}

/// The row position of a latitude inside its tile, in decimicro rows from
/// the north edge: row 3601 is the south edge.
pub open spec fn spec_row_num(lat: int) -> int {
    3601 * 10_000_000 - (lat % 10_000_000) * 3600
}

/// The column position of a longitude inside its tile, in decimicro
/// columns from the west edge.
pub open spec fn spec_col_num(long: int) -> int {
    (long % 10_000_000) * 3600
}

impl SamplePlan {
    /// The plan is consistent with the point it was made for: rows and
    /// columns bound the exact position, whose fractional parts are the
    /// stored weights.
    pub open spec fn wf_for(self, lat: int, long: int) -> bool {
        &&& self.row_floor == spec_row_num(lat) / 10_000_000
        &&& self.lat_frac == spec_row_num(lat) % 10_000_000
        &&& self.row_ceil == self.row_floor + if self.lat_frac == 0 {
            0int
        } else {
            1int
        }
        &&& self.col_floor == spec_col_num(long) / 10_000_000
        &&& self.lng_frac == spec_col_num(long) % 10_000_000
        &&& self.col_ceil == self.col_floor + if self.lng_frac == 0 {
            0int
        } else {
            1int
        }
        &&& 1 <= self.row_floor <= self.row_ceil <= 3601
        &&& self.col_floor <= self.col_ceil <= 3600
        &&& self.lat_frac < 10_000_000
        &&& self.lng_frac < 10_000_000
    }
}

/// Computes the rows, columns and fractional weights of the four samples
/// bounding a point.
pub fn sample_plan(lat: i64, long: i64) -> (r: SamplePlan)
    requires
        0 <= lat,
        0 <= long,
    ensures
        r.wf_for(lat as int, long as int),
{
    let lat_frac_deg = lat % COORD_SCALE;
    let lng_frac_deg = long % COORD_SCALE;
    let row_num: i64 = 3601 * COORD_SCALE - lat_frac_deg * 3600;
    let col_num: i64 = lng_frac_deg * 3600;
    let row_floor = (row_num / COORD_SCALE) as u64;
    let lat_frac = (row_num % COORD_SCALE) as u64;
    let col_floor = (col_num / COORD_SCALE) as u64;
    let lng_frac = (col_num % COORD_SCALE) as u64;
    SamplePlan {
        row_floor,
        row_ceil: if lat_frac == 0 {
            row_floor
        } else {
            row_floor + 1
        },
        col_floor,
        col_ceil: if lng_frac == 0 {
            col_floor
        } else {
            col_floor + 1
        },
        lat_frac,
        lng_frac,
    }
}

/// The byte offset of the sample at a one-based row and zero-based column:
/// rows of 3601 samples, two bytes each.
pub fn sample_offset(row: u64, col: u64) -> (off: u64)
    requires
        1 <= row <= 3601,
        col <= 3600,
    ensures
        off == ((row - 1) * 3601 + col) * 2,
{
    ((row - 1) * 3601 + col) * 2
}

/// Division truncating toward zero, as the host's integer division does.
pub open spec fn trunc_div(n: int, d: int) -> int {
    if n >= 0 {
        n / d
    } else {
        -((-n) / d)
    }
}

/// The exact bilinear interpolation of the four bounding samples, in
/// millimeters: each sample weighted by its share of the unit cell, the
/// weights summing to one.
pub open spec fn spec_interpolate(h1: int, h2: int, h3: int, h4: int, a: int, b: int) -> int {
    trunc_div(
        h1 * ((10_000_000 - a) * (10_000_000 - b)) + h2 * (a * (10_000_000 - b)) + h3 * ((
        10_000_000 - a) * b) + h4 * (a * b),
        100_000_000_000,
    )
}

/// Interpolates the four bounding samples of a point: `h1` northwest, `h2`
/// southwest, `h3` northeast, `h4` southeast, weighted by the fractional
/// offsets; the result is in millimeters.
pub fn interpolate(h1: i16, h2: i16, h3: i16, h4: i16, lat_frac: u64, lng_frac: u64) -> (r: i64)
    requires
        lat_frac < 10_000_000,
        lng_frac < 10_000_000,
    ensures
        r == spec_interpolate(
            h1 as int,
            h2 as int,
            h3 as int,
            h4 as int,
            lat_frac as int,
            lng_frac as int,
        ),
{
    let a: i128 = lat_frac as i128;
    let b: i128 = lng_frac as i128;
    let ca: i128 = 10_000_000 - a;
    let cb: i128 = 10_000_000 - b;
    proof {
        assert(0 <= ca * cb <= 100_000_000_000_000 && 0 <= a * cb <= 100_000_000_000_000 && 0 <= ca
            * b <= 100_000_000_000_000 && 0 <= a * b <= 100_000_000_000_000) by (nonlinear_arith)
            requires
                0 <= a <= 10_000_000,
                0 <= b <= 10_000_000,
                ca == 10_000_000 - a,
                cb == 10_000_000 - b,
        ;
    }
    let w1: i128 = ca * cb;
    let w2: i128 = a * cb;
    let w3: i128 = ca * b;
    let w4: i128 = a * b;
    proof {
        lemma_weighted_term_bound(h1 as int, w1 as int);
        lemma_weighted_term_bound(h2 as int, w2 as int);
        lemma_weighted_term_bound(h3 as int, w3 as int);
        lemma_weighted_term_bound(h4 as int, w4 as int);
    }
    let t1: i128 = (h1 as i128) * w1;
    let t2: i128 = (h2 as i128) * w2;
    let t3: i128 = (h3 as i128) * w3;
    let t4: i128 = (h4 as i128) * w4;
    let total: i128 = t1 + t2 + t3 + t4;
    let negative = total < 0;
    let magnitude: u128 = if negative {
        (-total) as u128
    } else {
        total as u128
    };
    let q: u128 = magnitude / 100_000_000_000;
    if negative {
        -(q as i64)
    } else {
        q as i64
    }
}

proof fn lemma_weighted_term_bound(h: int, w: int)
    requires
        -32768 <= h <= 32767,
        0 <= w <= 100_000_000_000_000,
    ensures
        -3276800000000000000 <= h * w <= 3276700000000000000,
{
    assert(-3276800000000000000 <= h * w <= 3276700000000000000) by (nonlinear_arith)
        requires
            -32768 <= h <= 32767,
            0 <= w <= 100_000_000_000_000,
    ;
}

/// CORNER EXACTNESS. At a grid point both fractional offsets vanish and
/// the interpolation returns exactly the raw sample there, scaled to
/// millimeters; and wherever the four samples agree, the interpolation
/// returns exactly that shared value, whatever the offsets.
pub proof fn lemma_interpolate_exact(h1: int, h2: int, h3: int, h4: int, a: int, b: int)
    requires
        -32768 <= h1 <= 32767,
        -32768 <= h2 <= 32767,
        -32768 <= h3 <= 32767,
        -32768 <= h4 <= 32767,
        0 <= a < 10_000_000,
        0 <= b < 10_000_000,
    ensures
        a == 0 && b == 0 ==> spec_interpolate(h1, h2, h3, h4, a, b) == h1 * 1000,
        h1 == h2 && h2 == h3 && h3 == h4 ==> spec_interpolate(h1, h2, h3, h4, a, b) == h1 * 1000,
{
    if a == 0 && b == 0 {
        assert(h1 * ((10_000_000 - 0) * (10_000_000 - 0)) + h2 * (0 * (10_000_000 - 0)) + h3 * ((
        10_000_000 - 0) * 0) + h4 * (0 * 0) == h1 * 100_000_000_000_000) by (nonlinear_arith);
        lemma_exact_scale(h1);
    }
    if h1 == h2 && h2 == h3 && h3 == h4 {
        assert(h1 * ((10_000_000 - a) * (10_000_000 - b)) + h1 * (a * (10_000_000 - b)) + h1 * ((
        10_000_000 - a) * b) + h1 * (a * b) == h1 * 100_000_000_000_000) by (nonlinear_arith);
        lemma_exact_scale(h1);
    }
}

proof fn lemma_exact_scale(h: int)
    requires
        -32768 <= h <= 32767,
    ensures
        trunc_div(h * 100_000_000_000_000, 100_000_000_000) == h * 1000,
{
    if h >= 0 {
        vstd::arithmetic::div_mod::lemma_div_multiples_vanish(h * 1000, 100_000_000_000);
        assert(h * 100_000_000_000_000 == 100_000_000_000 * (h * 1000)) by (nonlinear_arith);
    } else {
        vstd::arithmetic::div_mod::lemma_div_multiples_vanish(-h * 1000, 100_000_000_000);
        assert(-(h * 100_000_000_000_000) == 100_000_000_000 * (-h * 1000)) by (nonlinear_arith);
    }
}

} // verus!
