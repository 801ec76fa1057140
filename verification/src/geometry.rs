//! Tile-pyramid geometry in exact integer arithmetic.
//!
//! Coordinates are fixed-point degrees in units of 1e-7 degree ("e7").
//! A slippy-map tile address `(z, x, y)` spans columns `x/2^z..(x+1)/2^z` of
//! the world in longitude (linear) and rows `y/2^z..(y+1)/2^z` of the
//! Web-Mercator unit square in latitude. The inverse-Mercator (Gudermannian)
//! latitude of a mercator row fraction is evaluated by linear interpolation
//! in a fixed table, so the whole pipeline stays in integer arithmetic; the
//! table is exact to the e7 grid at its 65 sample rows and the interpolant is
//! proved strictly monotone, which is what the bounding-box invariants need.

use vstd::prelude::*;

verus! {

use vstd::arithmetic::div_mod::lemma_div_is_ordered;
use vstd::arithmetic::div_mod::lemma_div_plus_one;
use vstd::arithmetic::div_mod::lemma_div_pos_is_pos;
use vstd::arithmetic::div_mod::lemma_div_by_self;
use vstd::arithmetic::div_mod::lemma_fundamental_div_mod;
use vstd::arithmetic::div_mod::lemma_fundamental_div_mod_converse_div;
use vstd::arithmetic::div_mod::lemma_fundamental_div_mod_converse_mod;
use vstd::arithmetic::div_mod::lemma_hoist_over_denominator;
use vstd::arithmetic::div_mod::lemma_mod_division_less_than_divisor;
use vstd::arithmetic::div_mod::lemma_div_multiples_vanish_quotient;
use vstd::arithmetic::div_mod::lemma_multiply_divide_le;
use vstd::arithmetic::div_mod::lemma_multiply_divide_lt;
use vstd::arithmetic::mul::lemma_mul_inequality;
use vstd::arithmetic::mul::lemma_mul_is_distributive_add;
use vstd::arithmetic::mul::lemma_mul_is_distributive_sub;
use vstd::arithmetic::mul::lemma_mul_strict_inequality;
use vstd::arithmetic::mul::lemma_mul_upper_bound;
use vstd::arithmetic::power2::pow2;
use vstd::arithmetic::power2::lemma_pow2_adds;
use vstd::arithmetic::power2::lemma_pow2_strictly_increases;
use vstd::arithmetic::power2::lemma2_to64;

/// Deepest zoom level the fixed-point mercator grid resolves: rows are
/// placed on a 2^26 grid, so beyond zoom 26 two adjacent rows would
/// coincide.
pub const MAX_ZOOM: u32 = 26;

/// Tile-local integer resolution used when projecting points, the
/// conventional vector-tile extent.
pub const TILE_EXTENT: u32 = 4096;

/// A slippy-map tile address: zoom level, column, row (row 0 is the north
/// edge).
#[derive(Clone, Copy, Debug, PartialEq, Eq, Structural)]
pub struct TileAddress {
    pub z: u32,
    pub x: u32,
    pub y: u32,
}

impl TileAddress {
    /// A valid address: the zoom is within the grid resolution and the
    /// column and row index an existing tile of that zoom.
    pub open spec fn wf(self) -> bool {
        self.z <= MAX_ZOOM && (self.x as nat) < pow2(self.z as nat) && (self.y as nat) < pow2(
            self.z as nat,
        )
    }
}

/// A geographic point in fixed-point degrees (units of 1e-7 degree).
#[derive(Clone, Copy, Debug, PartialEq, Eq, Structural)]
pub struct GeoPoint {
    pub lon_e7: i64,
    pub lat_e7: i64,
}

/// A geographic bounding box in fixed-point degrees, south-west to
/// north-east.
#[derive(Clone, Copy, Debug, PartialEq, Eq, Structural)]
pub struct BoundingBox {
    pub min_lon_e7: i64,
    pub min_lat_e7: i64,
    pub max_lon_e7: i64,
    pub max_lat_e7: i64,
}

impl BoundingBox {
    /// Boxes of valid tiles are non-degenerate and stay inside the world:
    /// longitudes within +-180 degrees, latitudes within the Web-Mercator
    /// cap of about +-85.051 degrees.
    pub open spec fn wf(self) -> bool {
        -1800000000 <= self.min_lon_e7 < self.max_lon_e7 <= 1800000000
            && -850511288 <= self.min_lat_e7 < self.max_lat_e7 <= 850511288
    }
}

/// Latitude (e7 degrees) of the mercator line k/64 of the way from the north
/// cap to the south cap: the Gudermannian atan(sinh(pi*(1 - 2*k/64))),
/// rounded to the e7 grid. Clamped to the first and last entries outside
/// 0..=64.
pub open spec fn merc_lat_table(k: int) -> int {
    if k <= 0 {
        850511288
    } else if k == 1 {
        845413611
    } else if k == 2 {
        839792595
    } else if k == 3 {
        833595113
    } else if k == 4 {
        826762850
    } else if k == 5 {
        819231863
    } else if k == 6 {
        810932139
    } else if k == 7 {
        801787135
    } else if k == 8 {
        791713346
    } else if k == 9 {
        780619892
    } else if k == 10 {
        768408164
    } else if k == 11 {
        754971573
    } else if k == 12 {
        740195433
    } else if k == 13 {
        723957057
    } else if k == 14 {
        706126142
    } else if k == 15 {
        686565550
    } else if k == 16 {
        665132604
    } else if k == 17 {
        641681069
    } else if k == 18 {
        616063964
    } else if k == 19 {
        588137417
    } else if k == 20 {
        557765730
    } else if k == 21 {
        524827802
    } else if k == 22 {
        489224993
    } else if k == 23 {
        450890356
    } else if k == 24 {
        409798981
    } else if k == 25 {
        365978891
    } else if k == 26 {
        319521622
    } else if k == 27 {
        270591258
    } else if k == 28 {
        219430455
    } else if k == 29 {
        166361919
    } else if k == 30 {
        111784019
    } else if k == 31 {
        56159858
    } else if k == 32 {
        0
    } else if k == 33 {
        -56159858
    } else if k == 34 {
        -111784019
    } else if k == 35 {
        -166361919
    } else if k == 36 {
        -219430455
    } else if k == 37 {
        -270591258
    } else if k == 38 {
        -319521622
    } else if k == 39 {
        -365978891
    } else if k == 40 {
        -409798981
    } else if k == 41 {
        -450890356
    } else if k == 42 {
        -489224993
    } else if k == 43 {
        -524827802
    } else if k == 44 {
        -557765730
    } else if k == 45 {
        -588137417
    } else if k == 46 {
        -616063964
    } else if k == 47 {
        -641681069
    } else if k == 48 {
        -665132604
    } else if k == 49 {
        -686565550
    } else if k == 50 {
        -706126142
    } else if k == 51 {
        -723957057
    } else if k == 52 {
        -740195433
    } else if k == 53 {
        -754971573
    } else if k == 54 {
        -768408164
    } else if k == 55 {
        -780619892
    } else if k == 56 {
        -791713346
    } else if k == 57 {
        -801787135
    } else if k == 58 {
        -810932139
    } else if k == 59 {
        -819231863
    } else if k == 60 {
        -826762850
    } else if k == 61 {
        -833595113
    } else if k == 62 {
        -839792595
    } else if k == 63 {
        -845413611
    } else {
        -850511288
    }}

/// Latitude (e7 degrees) of the mercator line at fraction `f / 2^26` of the
/// way from north to south: linear interpolation between the two enclosing
/// table rows (cells are 2^20 grid units wide).
pub open spec fn lat_e7_of_frac(f: int) -> int {
    let k = f / 0x100000;
    let r = f % 0x100000;
    merc_lat_table(k) - ((merc_lat_table(k) - merc_lat_table(k + 1)) * r) / 0x100000
}

/// Position of row `row` of zoom `z` on the 2^26 mercator grid.
pub open spec fn merc_frac(z: nat, row: nat) -> int {
    if z > 26 {
        0
    } else {
        (row * pow2((26 - z) as nat)) as int
    }
}

/// West edge (e7 degrees) of column `col` of zoom `z`; the east edge is the
/// west edge of column `col + 1`. Longitude is linear in the column.
pub open spec fn lon_e7_of_col(z: nat, col: nat) -> int {
    ((col * 3600000000) / pow2(z)) as int - 1800000000
}

/// The geographic bounding box of a tile: longitudes from the column edges,
/// latitudes from the mercator rows `y` (north) and `y + 1` (south).
pub open spec fn spec_bounds(t: TileAddress) -> BoundingBox {
    BoundingBox {
        min_lon_e7: lon_e7_of_col(t.z as nat, t.x as nat) as i64,
        min_lat_e7: lat_e7_of_frac(merc_frac(t.z as nat, t.y as nat + 1)) as i64,
        max_lon_e7: lon_e7_of_col(t.z as nat, t.x as nat + 1) as i64,
        max_lat_e7: lat_e7_of_frac(merc_frac(t.z as nat, t.y as nat)) as i64,
    }
}

/// Adjacent table rows drop by at least one cell width (2^20) and at most
/// 56159858 e7 degrees; the interpolant inherits strict monotonicity from
/// the former and freedom from overflow from the latter.
pub proof fn lemma_table_step(k: int)
    requires
        0 <= k < 64,
    ensures
        0x100000 <= merc_lat_table(k) - merc_lat_table(k + 1) <= 56159858,
{
}

/// Every table row lies within the Web-Mercator latitude cap.
pub proof fn lemma_table_range(k: int)
    ensures
        -850511288 <= merc_lat_table(k) <= 850511288,
{
}

/// The interpolated latitude drops strictly at every grid step.
pub proof fn lemma_lat_frac_step(f: int)
    requires
        0 <= f < 0x4000000,
    ensures
        lat_e7_of_frac(f + 1) < lat_e7_of_frac(f),
{
    let w: int = 0x100000;
    let k: int = f / w;
    let r: int = f % w;
    lemma_fundamental_div_mod(f, w);
    lemma_mod_division_less_than_divisor(f, w);
    lemma_div_pos_is_pos(f, w);
    lemma_multiply_divide_lt(f, w, 64);
    lemma_table_step(k);
    let d: int = merc_lat_table(k) - merc_lat_table(k + 1);
    assert(d * (r + 1) == d * r + d) by {
        lemma_mul_is_distributive_add(d, r, 1);
    }
    if r + 1 < w {
        lemma_fundamental_div_mod_converse_div(f + 1, w, k, r + 1);
        lemma_fundamental_div_mod_converse_mod(f + 1, w, k, r + 1);
        assert((d * r + w) / w == (d * r) / w + 1) by {
            lemma_div_plus_one(d * r, w);
        }
        lemma_div_is_ordered(d * r + w, d * (r + 1), w);
    } else {
        assert(f + 1 == (k + 1) * w + 0) by {
            lemma_mul_is_distributive_add(w, k, 1);
        }
        lemma_fundamental_div_mod_converse_div(f + 1, w, k + 1, 0);
        lemma_fundamental_div_mod_converse_mod(f + 1, w, k + 1, 0);
        assert(d * (w - 1) < w * d) by {
            lemma_mul_is_distributive_sub(d, w, 1);
        }
        lemma_multiply_divide_lt(d * (w - 1), w, d);
    }
}

/// The interpolated latitude is strictly decreasing on the mercator grid.
pub proof fn lemma_lat_frac_mono(f1: int, f2: int)
    requires
        0 <= f1 < f2 <= 0x4000000,
    ensures
        lat_e7_of_frac(f2) < lat_e7_of_frac(f1),
    decreases f2 - f1,
{
    if f2 == f1 + 1 {
        lemma_lat_frac_step(f1);
    } else {
        lemma_lat_frac_mono(f1, f2 - 1);
        lemma_lat_frac_step(f2 - 1);
    }
}

/// The interpolated latitude stays within the Web-Mercator cap.
pub proof fn lemma_lat_frac_range(f: int)
    requires
        0 <= f <= 0x4000000,
    ensures
        -850511288 <= lat_e7_of_frac(f) <= 850511288,
{
    assert(merc_lat_table(0) == 850511288);
    assert(merc_lat_table(1) == 845413611);
    assert(merc_lat_table(64) == -850511288);
    assert(merc_lat_table(65) == -850511288);
    assert(0int / 0x100000 == 0);
    assert(0int % 0x100000 == 0);
    assert(lat_e7_of_frac(0) == 850511288);
    assert(0x4000000int / 0x100000 == 64);
    assert(0x4000000int % 0x100000 == 0);
    assert(lat_e7_of_frac(0x4000000) == -850511288);
    if f != 0 {
        lemma_lat_frac_mono(0, f);
    }
    if f != 0x4000000 {
        lemma_lat_frac_mono(f, 0x4000000);
    }
}

/// Rows of one zoom level sit on the mercator grid in strictly increasing
/// order, inside the grid's range.
pub proof fn lemma_merc_frac_bounds(z: nat, row: nat)
    requires
        z <= 26,
        row <= pow2(z),
    ensures
        0 <= merc_frac(z, row) <= 0x4000000,
        row < pow2(z) ==> merc_frac(z, row) < merc_frac(z, row + 1),
{
    let p: int = pow2((26 - z) as nat) as int;
    lemma_pow2_adds(z, (26 - z) as nat);
    lemma2_to64();
    assert(pow2(26) == 0x4000000);
    vstd::arithmetic::power2::lemma_pow2_pos((26 - z) as nat);
    lemma_mul_inequality(row as int, pow2(z) as int, p);
    if row < pow2(z) {
        lemma_mul_strict_inequality(row as int, row as int + 1, p);
        lemma_mul_inequality(row as int + 1, pow2(z) as int, p);
    }
}

/// Executable power of two on the zoom range.
pub fn pow2_u64(e: u32) -> (r: u64)
    requires
        e <= 26,
    ensures
        r as nat == pow2(e as nat),
        1 <= r <= 0x4000000,
    decreases e,
{
    proof {
        lemma2_to64();
        if e < 26 {
            lemma_pow2_strictly_increases(e as nat, 26);
        }
    }
    if e == 0 {
        1
    } else {
        let half: u64 = pow2_u64(e - 1);
        proof {
            lemma_pow2_adds(1, (e - 1) as nat);
        }
        2 * half
    }
}

/// Latitude (e7 degrees) of mercator row `row` of zoom `z`; row 0 is the
/// north cap, row 2^z the south cap.
pub fn lat_e7_of_row(z: u32, row: u32) -> (r: i64)
    requires
        z <= 26,
        row as nat <= pow2(z as nat),
    ensures
        r as int == lat_e7_of_frac(merc_frac(z as nat, row as nat)),
        -850511288 <= r <= 850511288,
{
    let step: u64 = pow2_u64(26 - z);
    proof {
        lemma_merc_frac_bounds(z as nat, row as nat);
        lemma_mul_upper_bound(row as int, pow2(z as nat) as int, step as int, step as int);
    }
    let f: u64 = (row as u64) * step;
    let k64: u64 = f / 0x100000;
    let rem: u64 = f % 0x100000;
    proof {
        lemma_multiply_divide_le(f as int, 0x100000, 64);
        lemma_div_pos_is_pos(f as int, 0x100000);
        lemma_mod_division_less_than_divisor(f as int, 0x100000);
        if k64 < 64 {
            lemma_table_step(k64 as int);
        }
        lemma_table_range(k64 as int);
        lemma_table_range(k64 as int + 1);
    }
    let k: usize = k64 as usize;
    let a: i64 = merc_lat_table_at(k);
    let b: i64 = merc_lat_table_at(k + 1);
    let d: u64 = (a - b) as u64;
    proof {
        lemma_mul_upper_bound(d as int, 56159858, rem as int, 0xFFFFF);
        lemma_mul_inequality(rem as int, 0x100000, d as int);
        lemma_multiply_divide_le((d * rem) as int, 0x100000, d as int);
    }
    let q: u64 = (d * rem) / 0x100000;
    let r: i64 = a - (q as i64);
    proof {
        lemma_lat_frac_range(f as int);
    }
    r
}

/// The geographic bounding box of a valid tile address.
pub fn bounds_of(t: &TileAddress) -> (b: BoundingBox)
    requires
        t.wf(),
    ensures
        b == spec_bounds(*t),
        b.wf(),
{
    let p: u64 = pow2_u64(t.z);
    proof {
        lemma_mul_upper_bound(t.x as int, 0x4000000, 3600000000, 3600000000);
        lemma_mul_upper_bound(t.x as int + 1, 0x4000000, 3600000000, 3600000000);
        lemma_mul_strict_inequality(t.x as int, p as int, 3600000000);
        lemma_mul_inequality(t.x as int + 1, p as int, 3600000000);
        lemma_multiply_divide_lt((t.x as int) * 3600000000, p as int, 3600000000);
        lemma_multiply_divide_le((t.x as int + 1) * 3600000000, p as int, 3600000000);
        lemma_div_pos_is_pos((t.x as int) * 3600000000, p as int);
        lemma_div_pos_is_pos((t.x as int + 1) * 3600000000, p as int);
    }
    let wx: u64 = (t.x as u64) * 3600000000;
    let wx1: u64 = (t.x as u64 + 1) * 3600000000;
    let min_lon: i64 = ((wx / p) as i64) - 1800000000;
    let max_lon: i64 = ((wx1 / p) as i64) - 1800000000;
    proof {
        // the east edge lies strictly east of the west edge: the numerator
        // grows by a full span, which contributes at least span/2^z >= 1
        let a: int = (t.x as int) * 3600000000;
        let q: int = 3600000000int / (p as int);
        lemma_div_by_self(p as int);
        lemma_div_is_ordered(p as int, 3600000000, p as int);
        lemma_fundamental_div_mod(3600000000, p as int);
        lemma_mod_division_less_than_divisor(3600000000, p as int);
        lemma_hoist_over_denominator(a, q, p as nat);
        lemma_mul_is_distributive_add(3600000000, t.x as int, 1);
        lemma_div_is_ordered(a + q * (p as int), a + 3600000000, p as int);
    }
    let max_lat: i64 = lat_e7_of_row(t.z, t.y);
    let min_lat: i64 = lat_e7_of_row(t.z, t.y + 1);
    proof {
        lemma_merc_frac_bounds(t.z as nat, t.y as nat);
        lemma_merc_frac_bounds(t.z as nat, t.y as nat + 1);
        lemma_lat_frac_mono(
            merc_frac(t.z as nat, t.y as nat),
            merc_frac(t.z as nat, t.y as nat + 1),
        );
    }
    BoundingBox { min_lon_e7: min_lon, min_lat_e7: min_lat, max_lon_e7: max_lon, max_lat_e7: max_lat }
}

/// Neighboring tiles of one zoom level share their seam: the next column's
/// west edge is this column's east edge, and the next row's north edge is
/// this row's south edge.
pub proof fn lemma_bounds_seamless(t: TileAddress)
    requires
        t.wf(),
        t.x as nat + 1 < pow2(t.z as nat),
        t.y as nat + 1 < pow2(t.z as nat),
    ensures
        spec_bounds((TileAddress { z: t.z, x: (t.x + 1) as u32, y: t.y })).min_lon_e7
            == spec_bounds(t).max_lon_e7,
        spec_bounds((TileAddress { z: t.z, x: t.x, y: (t.y + 1) as u32 })).max_lat_e7
            == spec_bounds(t).min_lat_e7,
{
    lemma2_to64();
    if t.z < 26 {
        lemma_pow2_strictly_increases(t.z as nat, 26);
    }
}

/// The bounding box of a tile contains the bounding box of its north-west
/// child one zoom level deeper.
#[verifier::rlimit(100)]
pub proof fn lemma_zoom_containment(t: TileAddress)
    requires
        t.wf(),
        t.z < 26,
    ensures
        (TileAddress { z: (t.z + 1) as u32, x: (2 * t.x) as u32, y: (2 * t.y) as u32 }).wf(),
        ({
            let parent = spec_bounds(t);
            let child = spec_bounds(
                (TileAddress { z: (t.z + 1) as u32, x: (2 * t.x) as u32, y: (2 * t.y) as u32 }),
            );
            parent.min_lon_e7 <= child.min_lon_e7 && child.max_lon_e7 <= parent.max_lon_e7
                && parent.min_lat_e7 <= child.min_lat_e7 && child.max_lat_e7
                <= parent.max_lat_e7
        }),
{
    lemma2_to64();
    lemma_pow2_strictly_increases(t.z as nat, 26);
    if t.z as nat + 1 < 26 {
        lemma_pow2_strictly_increases(t.z as nat + 1, 26);
    }
    lemma_pow2_adds(1, t.z as nat);
    let p: int = pow2(t.z as nat) as int;
    let s: int = 3600000000;
    // west edges coincide: (2x * s) / 2^(z+1) == (x * s) / 2^z
    assert((2 * t.x) * s == 2 * (t.x as int * s)) by (nonlinear_arith);
    lemma_div_multiples_vanish_quotient(2, t.x as int * s, p);
    // east edge of the child is the middle column edge, west of the parent's
    assert((2 * t.x + 1) * s <= (2 * (t.x as int + 1)) * s) by {
        lemma_mul_inequality(2 * t.x as int + 1, 2 * (t.x as int + 1), s);
    }
    assert((2 * (t.x as int + 1)) * s == 2 * ((t.x as int + 1) * s)) by (nonlinear_arith);
    lemma_div_multiples_vanish_quotient(2, (t.x as int + 1) * s, p);
    lemma_div_is_ordered((2 * t.x as int + 1) * s, 2 * ((t.x as int + 1) * s), 2 * p);
    lemma_div_pos_is_pos((2 * t.x as int + 1) * s, 2 * p);
    lemma_multiply_divide_le((2 * t.x as int + 1) * s, 2 * p, s);
    // mercator rows: the child's north row is the parent's; its south row
    // lies at or north of the parent's south row
    let pc: int = pow2((25 - t.z) as nat) as int;
    lemma_pow2_adds(1, (25 - t.z) as nat);
    assert((2 * t.y) * pc == t.y as int * (2 * pc)) by (nonlinear_arith);
    assert((2 * t.y + 1) * pc < (2 * t.y as int + 2) * pc) by {
        lemma_mul_strict_inequality(2 * t.y as int + 1, 2 * t.y as int + 2, pc);
        vstd::arithmetic::power2::lemma_pow2_pos((25 - t.z) as nat);
    }
    assert((2 * t.y as int + 2) * pc == (t.y as int + 1) * (2 * pc)) by (nonlinear_arith);
    lemma_merc_frac_bounds(t.z as nat + 1, 2 * t.y as nat + 1);
    lemma_merc_frac_bounds(t.z as nat + 1, 2 * t.y as nat + 2);
    lemma_merc_frac_bounds(t.z as nat, t.y as nat);
    lemma_merc_frac_bounds(t.z as nat, t.y as nat + 1);
    lemma_lat_frac_mono(
        merc_frac(t.z as nat + 1, 2 * t.y as nat + 1),
        merc_frac(t.z as nat + 1, 2 * t.y as nat + 2),
    );
    // every latitude involved is inside the cap, so the i64 casts are exact
    lemma_lat_frac_range(merc_frac(t.z as nat, t.y as nat));
    lemma_lat_frac_range(merc_frac(t.z as nat, t.y as nat + 1));
    lemma_lat_frac_range(merc_frac(t.z as nat + 1, 2 * t.y as nat + 1));
    // and every longitude is inside +-180 degrees, likewise
    lemma_div_pos_is_pos(t.x as int * s, p);
    lemma_mul_inequality(t.x as int, p, s);
    lemma_multiply_divide_le(t.x as int * s, p, s);
    lemma_mul_inequality(t.x as int + 1, p, s);
    lemma_multiply_divide_le((t.x as int + 1) * s, p, s);
}

/// Whether a point lies in a box; both borders are inclusive, matching the
/// range predicate the dataset scan applies.
pub open spec fn in_bbox(p: GeoPoint, b: BoundingBox) -> bool {
    b.min_lon_e7 <= p.lon_e7 <= b.max_lon_e7 && b.min_lat_e7 <= p.lat_e7 <= b.max_lat_e7
}

/// Executable box test.
pub fn point_in_bbox(p: &GeoPoint, b: &BoundingBox) -> (r: bool)
    ensures
        r == in_bbox(*p, *b),
{
    b.min_lon_e7 <= p.lon_e7 && p.lon_e7 <= b.max_lon_e7 && b.min_lat_e7 <= p.lat_e7
        && p.lat_e7 <= b.max_lat_e7
}

/// The subsequence of points that lie in the box, in input order.
pub open spec fn points_in_bbox(ps: Seq<GeoPoint>, b: BoundingBox) -> Seq<GeoPoint>
    decreases ps.len(),
{
    if ps.len() == 0 {
        Seq::empty()
    } else {
        let fst = points_in_bbox(ps.drop_last(), b);
        if in_bbox(ps.last(), b) {
            fst.push(ps.last())
        } else {
            fst
        }
    }
}

/// Keeps exactly the points inside the box, in order.
pub fn filter_points(pts: &Vec<GeoPoint>, b: &BoundingBox) -> (r: Vec<GeoPoint>)
    ensures
        r@ == points_in_bbox(pts@, *b),
{
    let mut out: Vec<GeoPoint> = Vec::new();
    let mut i: usize = 0;
    while i < pts.len()
        invariant
            0 <= i <= pts@.len(),
            out@ == points_in_bbox(pts@.take(i as int), *b),
        decreases pts@.len() - i,
    {
        let p: GeoPoint = pts[i];
        proof {
            assert(pts@.take(i as int + 1).drop_last() =~= pts@.take(i as int));
            assert(pts@.take(i as int + 1).last() == p);
        }
        if point_in_bbox(&p, b) {
            out.push(p);
        }
        i += 1;
    }
    proof {
        assert(pts@.take(pts@.len() as int) =~= pts@);
    }
    out
}

/// Clamp to a closed interval.
pub open spec fn clamp_spec(v: int, lo: int, hi: int) -> int {
    if v < lo {
        lo
    } else if v > hi {
        hi
    } else {
        v
    }
}

/// Tile-local coordinates of a point: clamp into the box, scale each axis
/// linearly onto `0..extent`, and cap at `extent - 1` so the result always
/// lies in `0..extent`. The y axis is flipped: row 0 of the tile grid is its
/// north edge.
pub open spec fn project_spec(p: GeoPoint, b: BoundingBox, extent: int) -> (int, int) {
    let cx = clamp_spec(p.lon_e7 as int, b.min_lon_e7 as int, b.max_lon_e7 as int);
    let cy = clamp_spec(p.lat_e7 as int, b.min_lat_e7 as int, b.max_lat_e7 as int);
    let sx = ((cx - b.min_lon_e7) * extent) / (b.max_lon_e7 - b.min_lon_e7);
    let sy = ((b.max_lat_e7 - cy) * extent) / (b.max_lat_e7 - b.min_lat_e7);
    (
        if sx > extent - 1 {
            extent - 1
        } else {
            sx
        },
        if sy > extent - 1 {
            extent - 1
        } else {
            sy
        },
    )
}

/// Executable projection into tile space.
pub fn project_to_tile_space(p: &GeoPoint, b: &BoundingBox, extent: u32) -> (r: (i32, i32))
    requires
        b.wf(),
        1 <= extent <= 65536,
    ensures
        (r.0 as int, r.1 as int) == project_spec(*p, *b, extent as int),
        0 <= r.0 < extent,
        0 <= r.1 < extent,
{
    let cx: i64 = if p.lon_e7 < b.min_lon_e7 {
        b.min_lon_e7
    } else if p.lon_e7 > b.max_lon_e7 {
        b.max_lon_e7
    } else {
        p.lon_e7
    };
    let cy: i64 = if p.lat_e7 < b.min_lat_e7 {
        b.min_lat_e7
    } else if p.lat_e7 > b.max_lat_e7 {
        b.max_lat_e7
    } else {
        p.lat_e7
    };
    let dx: u64 = (cx - b.min_lon_e7) as u64;
    let dy: u64 = (b.max_lat_e7 - cy) as u64;
    let span_x: u64 = (b.max_lon_e7 - b.min_lon_e7) as u64;
    let span_y: u64 = (b.max_lat_e7 - b.min_lat_e7) as u64;
    proof {
        lemma_mul_upper_bound(dx as int, 3600000000, extent as int, 65536);
        lemma_mul_upper_bound(dy as int, 1701022576, extent as int, 65536);
        lemma_mul_inequality(dx as int, span_x as int, extent as int);
        lemma_multiply_divide_le((dx as int) * (extent as int), span_x as int, extent as int);
        lemma_mul_inequality(dy as int, span_y as int, extent as int);
        lemma_multiply_divide_le((dy as int) * (extent as int), span_y as int, extent as int);
        lemma_div_pos_is_pos((dx as int) * (extent as int), span_x as int);
        lemma_div_pos_is_pos((dy as int) * (extent as int), span_y as int);
    }
    let sx: u64 = (dx * (extent as u64)) / span_x;
    let sy: u64 = (dy * (extent as u64)) / span_y;
    let px: i32 = if sx > (extent - 1) as u64 {
        (extent - 1) as i32
    } else {
        sx as i32
    };
    let py: i32 = if sy > (extent - 1) as u64 {
        (extent - 1) as i32
    } else {
        sy as i32
    };
    (px, py)
}

/// Integer view of a run of projected points.
pub open spec fn pts_model(s: Seq<(i32, i32)>) -> Seq<(int, int)> {
    s.map_values(|p: (i32, i32)| (p.0 as int, p.1 as int))
}

/// Tile-local coordinates of a run of points, in order.
pub open spec fn project_all(ps: Seq<GeoPoint>, b: BoundingBox, extent: int) -> Seq<(int, int)>
    decreases ps.len(),
{
    if ps.len() == 0 {
        Seq::empty()
    } else {
        project_all(ps.drop_last(), b, extent).push(project_spec(ps.last(), b, extent))
    }
}

/// Projects every point of `pts` into tile space, in order.
pub fn project_points(pts: &Vec<GeoPoint>, b: &BoundingBox, extent: u32) -> (r: Vec<(i32, i32)>)
    requires
        b.wf(),
        1 <= extent <= 65536,
    ensures
        pts_model(r@) == project_all(pts@, *b, extent as int),
{
    let mut out: Vec<(i32, i32)> = Vec::new();
    let mut i: usize = 0;
    proof {
        assert(pts_model(out@) =~= project_all(pts@.take(0), *b, extent as int));
    }
    while i < pts.len()
        invariant
            0 <= i <= pts@.len(),
            b.wf(),
            1 <= extent <= 65536,
            pts_model(out@) == project_all(pts@.take(i as int), *b, extent as int),
        decreases pts@.len() - i,
    {
        let p: GeoPoint = pts[i];
        let pr: (i32, i32) = project_to_tile_space(&p, b, extent);
        let ghost before = out@;
        out.push(pr);
        proof {
            assert(pts@.take(i as int + 1).drop_last() =~= pts@.take(i as int));
            assert(pts@.take(i as int + 1).last() == p);
            assert(pts_model(out@) =~= pts_model(before).push((pr.0 as int, pr.1 as int)));
        }
        i += 1;
    }
    proof {
        assert(pts@.take(pts@.len() as int) =~= pts@);
    }
    out
}

/// Latitude table row, executable form.
pub fn merc_lat_table_at(k: usize) -> (r: i64)
    ensures
        r as int == merc_lat_table(k as int),
{
    if k == 0 {
        850511288
    } else if k == 1 {
        845413611
    } else if k == 2 {
        839792595
    } else if k == 3 {
        833595113
    } else if k == 4 {
        826762850
    } else if k == 5 {
        819231863
    } else if k == 6 {
        810932139
    } else if k == 7 {
        801787135
    } else if k == 8 {
        791713346
    } else if k == 9 {
        780619892
    } else if k == 10 {
        768408164
    } else if k == 11 {
        754971573
    } else if k == 12 {
        740195433
    } else if k == 13 {
        723957057
    } else if k == 14 {
        706126142
    } else if k == 15 {
        686565550
    } else if k == 16 {
        665132604
    } else if k == 17 {
        641681069
    } else if k == 18 {
        616063964
    } else if k == 19 {
        588137417
    } else if k == 20 {
        557765730
    } else if k == 21 {
        524827802
    } else if k == 22 {
        489224993
    } else if k == 23 {
        450890356
    } else if k == 24 {
        409798981
    } else if k == 25 {
        365978891
    } else if k == 26 {
        319521622
    } else if k == 27 {
        270591258
    } else if k == 28 {
        219430455
    } else if k == 29 {
        166361919
    } else if k == 30 {
        111784019
    } else if k == 31 {
        56159858
    } else if k == 32 {
        0
    } else if k == 33 {
        -56159858
    } else if k == 34 {
        -111784019
    } else if k == 35 {
        -166361919
    } else if k == 36 {
        -219430455
    } else if k == 37 {
        -270591258
    } else if k == 38 {
        -319521622
    } else if k == 39 {
        -365978891
    } else if k == 40 {
        -409798981
    } else if k == 41 {
        -450890356
    } else if k == 42 {
        -489224993
    } else if k == 43 {
        -524827802
    } else if k == 44 {
        -557765730
    } else if k == 45 {
        -588137417
    } else if k == 46 {
        -616063964
    } else if k == 47 {
        -641681069
    } else if k == 48 {
        -665132604
    } else if k == 49 {
        -686565550
    } else if k == 50 {
        -706126142
    } else if k == 51 {
        -723957057
    } else if k == 52 {
        -740195433
    } else if k == 53 {
        -754971573
    } else if k == 54 {
        -768408164
    } else if k == 55 {
        -780619892
    } else if k == 56 {
        -791713346
    } else if k == 57 {
        -801787135
    } else if k == 58 {
        -810932139
    } else if k == 59 {
        -819231863
    } else if k == 60 {
        -826762850
    } else if k == 61 {
        -833595113
    } else if k == 62 {
        -839792595
    } else if k == 63 {
        -845413611
    } else {
        -850511288
    }}

} // verus!
