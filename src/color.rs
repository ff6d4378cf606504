//! Grey levels from hit counts, computed exactly in integers.
use vstd::prelude::*;

verus! {

/// `8 * 255^3`: the cube of twice the brightest level.
pub const CUBE_SCALE: u64 = 132651000;

/// Level `k` is not above the rounded cube-root level of `v / m`: either
/// it is zero or `k - 1/2 <= 255 * (v / m)^(1/3)`.
pub open spec fn cube_level_reached(k: int, v: int, m: int) -> bool {
    k == 0 || (2 * k - 1) * (2 * k - 1) * (2 * k - 1) * m <= 8 * 255 * 255 * 255 * v
}

/// `round(255 * (v / m)^(1/3))`, capped at 255; zero when `m` is zero.
/// The level is the largest `k <= 255` whose lower rounding edge
/// `k - 1/2` lies at or below the exact value.
pub open spec fn cube_level(v: int, m: int) -> int {
    if m == 0 {
        0
    } else {
        cube_level_from(0, v, m)
    }
}

/// The largest level reached, counting up from `k`.
pub open spec fn cube_level_from(k: int, v: int, m: int) -> int
    decreases 255 - k,
{
    if k < 255 && cube_level_reached(k + 1, v, m) {
        cube_level_from(k + 1, v, m)
    } else {
        k
    }
}

/// `round(255 * v / m)`, capped at 255; zero when `m` is zero.
pub open spec fn linear_level(v: int, m: int) -> int {
    if m == 0 {
        0
    } else if (510 * v + m) / (2 * m) > 255 {
        255
    } else {
        (510 * v + m) / (2 * m)
    }
}

/// Grey level of `val` hits against a brightest count of `max`, on a cube-root
/// scale that lifts faint cells.
pub fn hits_to_col_sqrt(val: u32, max: u32) -> (r: u8)
    ensures
        r == cube_level(val as int, max as int),
{
    if max == 0 {
        return 0;
    }
    let m = max as u64;
    let target: u64 = CUBE_SCALE * (val as u64);
    let mut k: u64 = 0;
    while k < 255
        invariant
            k <= 255,
            m == max as u64,
            m > 0,
            target == 8 * 255 * 255 * 255 * val,
            cube_level_from(k as int, val as int, m as int) == cube_level(val as int, max as int),
        decreases 255 - k,
    {
        let odd: u64 = 2 * k + 1;
        assert(odd * odd <= 511 * 511) by (nonlinear_arith)
            requires
                odd <= 511,
        ;
        let sq: u64 = odd * odd;
        assert(sq * odd <= 511 * 511 * 511) by (nonlinear_arith)
            requires
                sq <= 511 * 511,
                odd <= 511,
        ;
        let cube: u64 = sq * odd;
        assert(cube * m <= 511 * 511 * 511 * 0xffff_ffff) by (nonlinear_arith)
            requires
                cube <= 511 * 511 * 511,
                m <= 0xffff_ffff,
        ;
        if cube * m <= target {
            k = k + 1;
        } else {
            return k as u8;
        }
    }
    255
}

/// Grey level of `val` hits against a brightest count of `max`, on a linear
/// scale.
pub fn hits_to_col_lin(val: u32, max: u32) -> (r: u8)
    ensures
        r == linear_level(val as int, max as int),
{
    if max == 0 {
        return 0;
    }
    let m = max as u64;
    let q: u64 = (510 * (val as u64) + m) / (2 * m);
    if q > 255 {
        255
    } else {
        q as u8
    }
}

/// An empty image stays black on either scale, and the brightest count
/// maps to full white on the cube-root scale whenever it is not zero.
pub proof fn lemma_color_extremes(val: u32, max: u32)
    ensures
        cube_level(val as int, 0) == 0,
        linear_level(val as int, 0) == 0,
        max > 0 ==> cube_level(max as int, max as int) == 255,
        max > 0 ==> linear_level(max as int, max as int) == 255,
{
    if max > 0 {
        let m = max as int;
        assert forall|k: int| 0 <= k <= 255 implies #[trigger] cube_level_reached(k, m, m) by {
            assert((2 * k - 1) * (2 * k - 1) * (2 * k - 1) <= 8 * 255 * 255 * 255) by (nonlinear_arith)
                requires
                    0 <= k <= 255,
            ;
            assert((2 * k - 1) * (2 * k - 1) * (2 * k - 1) * m <= 8 * 255 * 255 * 255 * m)
                by (nonlinear_arith)
                requires
                    (2 * k - 1) * (2 * k - 1) * (2 * k - 1) <= 8 * 255 * 255 * 255,
                    m > 0,
            ;
        }
        lemma_cube_level_full(0, m);
        vstd::arithmetic::div_mod::lemma_fundamental_div_mod_converse_div(
            510 * m + m,
            2 * m,
            255,
            m,
        );
    }
}

/// For a nonzero `m`, the cube-root level `r` is the largest `k <= 255`
/// that is reached: `r` itself is reached and no level above it is.
pub proof fn lemma_cube_level_largest(v: u32, m: u32)
    requires
        m > 0,
    ensures
        0 <= cube_level(v as int, m as int) <= 255,
        cube_level_reached(cube_level(v as int, m as int), v as int, m as int),
        forall|k: int|
            cube_level(v as int, m as int) < k <= 255 ==> !#[trigger] cube_level_reached(
                k,
                v as int,
                m as int,
            ),
{
    let r = cube_level_from(0, v as int, m as int);
    lemma_cube_level_from(0, v as int, m as int);
    assert forall|k: int| r < k <= 255 implies !#[trigger] cube_level_reached(
        k,
        v as int,
        m as int,
    ) by {
        if cube_level_reached(k, v as int, m as int) {
            lemma_reached_downward(k, r + 1, v as int, m as int);
        }
    }
}

/// Counting up from a reached level `k` stops at a reached level whose
/// successor is not reached.
proof fn lemma_cube_level_from(k: int, v: int, m: int)
    requires
        0 <= k <= 255,
        cube_level_reached(k, v, m),
    ensures
        k <= cube_level_from(k, v, m) <= 255,
        cube_level_reached(cube_level_from(k, v, m), v, m),
        cube_level_from(k, v, m) == 255 || !cube_level_reached(cube_level_from(k, v, m) + 1, v, m),
    decreases 255 - k,
{
    if k < 255 && cube_level_reached(k + 1, v, m) {
        lemma_cube_level_from(k + 1, v, m);
    }
}

/// Reaching a level means reaching every level below it.
proof fn lemma_reached_downward(k: int, j: int, v: int, m: int)
    requires
        1 <= j <= k,
        m > 0,
        cube_level_reached(k, v, m),
    ensures
        cube_level_reached(j, v, m),
{
    let a = 2 * j - 1;
    let b = 2 * k - 1;
    assert(a * a * a * m <= b * b * b * m) by (nonlinear_arith)
        requires
            1 <= a <= b,
            m > 0,
    ;
}

proof fn lemma_cube_level_full(k: int, m: int)
    requires
        0 <= k <= 255,
        forall|j: int| 0 <= j <= 255 ==> #[trigger] cube_level_reached(j, m, m),
    ensures
        cube_level_from(k, m, m) == 255,
    decreases 255 - k,
{
    if k < 255 {
        assert(cube_level_reached(k + 1, m, m));
        lemma_cube_level_full(k + 1, m);
    }
}

} // verus!
