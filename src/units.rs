//! Fixed-point coordinates and the rounding rules used by layout and culling.
//!
//! Layout coordinates are integers counting 1/64 of a pixel, and point sizes
//! and scale factors count 1/64 of their unit (26.6 fixed point).
use vstd::prelude::*;

verus! {

/// Fixed-point steps in one whole unit (pixel, point or scale factor).
pub const SUBUNITS: i64 = 64;

/// Largest magnitude that a layout coordinate may take, in 1/64 px.
pub const COORD_LIMIT: i64 = 0x100_0000_0000;

/// Rounds `a / b` toward negative infinity.
pub open spec fn floor_div(a: int, b: int) -> int {
    a / b
}

/// Rounds `a / b` toward positive infinity.
pub open spec fn ceil_div(a: int, b: int) -> int {
    -((-a) / b)
}

/// Rounds `a / b` to the nearest integer, halves going up.
pub open spec fn round_div(a: int, b: int) -> int {
    (2 * a + b) / (2 * b)
}

/// A value in font design units converted to 1/64 px at a point size given in
/// 1/64 pt: `v * point_size / units_per_em`, rounded down.
pub open spec fn scale_units(v: int, point_size: int, units_per_em: int) -> int {
    floor_div(v * point_size, units_per_em)
}

/// Euclidean division of machine integers for a positive divisor.
pub fn floor_div_i128(a: i128, b: i128) -> (r: i128)
    requires
        b > 0,
        -0x1_0000_0000_0000_0000_0000_0000 <= a <= 0x1_0000_0000_0000_0000_0000_0000,
    ensures
        r == floor_div(a as int, b as int),
{
    proof {
        assert(-0x1_0000_0000_0000_0000_0000_0000 <= a as int / b as int
            <= 0x1_0000_0000_0000_0000_0000_0000) by (nonlinear_arith)
            requires
                b > 0,
                -0x1_0000_0000_0000_0000_0000_0000 <= a <= 0x1_0000_0000_0000_0000_0000_0000,
        ;
    }
    match a.checked_div_euclid(b) {
        Some(q) => q,
        None => 0,
    }
}

/// `v * point_size / units_per_em` in 1/64 px, rounded down.
pub fn scale_units_exec(v: i32, point_size: u16, units_per_em: u16) -> (r: i64)
    requires
        units_per_em > 0,
    ensures
        r == scale_units(v as int, point_size as int, units_per_em as int),
        v >= 0 ==> 0 <= r <= v * point_size,
        v < 0 ==> v * point_size <= r <= 0,
        -0x1_0000_0000_0000 <= r <= 0x1_0000_0000_0000,
{
    proof {
        assert(-0x8000_0000_0000 <= v as int * point_size as int <= 0x8000_0000_0000)
            by (nonlinear_arith)
            requires
                -0x8000_0000 <= v < 0x8000_0000,
                0 <= point_size < 0x1_0000,
        ;
    }
    let p: i128 = (v as i128) * (point_size as i128);
    let q = floor_div_i128(p, units_per_em as i128);
    proof {
        let pi = v as int * point_size as int;
        let u = units_per_em as int;
        assert(-0x1_0000_0000_0000 <= pi / u <= 0x1_0000_0000_0000) by (nonlinear_arith)
            requires
                pi == v as int * point_size as int,
                u >= 1,
                -0x8000_0000 <= v < 0x8000_0000,
                0 <= point_size < 0x1_0000,
        ;
        if v >= 0 {
            assert(0 <= pi / u <= pi) by (nonlinear_arith)
                requires
                    pi >= 0,
                    u >= 1,
            ;
        } else {
            assert(pi <= 0) by (nonlinear_arith)
                requires
                    pi == v as int * point_size as int,
                    v < 0,
                    point_size >= 0,
            ;
            assert(pi <= pi / u <= 0) by (nonlinear_arith)
                requires
                    pi <= 0,
                    u >= 1,
            ;
        }
    }
    q as i64
}

} // verus!
