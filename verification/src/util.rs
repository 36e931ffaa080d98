//! Fixed-point constants and 8-bit channel arithmetic.

use vstd::prelude::*;

verus! {

/// The bit shift that converts pixel coordinates into sub-pixel coordinates.
pub const POLY_SUBPIXEL_SHIFT: i64 = 8;

/// The number of sub-pixel units in one pixel.
pub const POLY_SUBPIXEL_SCALE: i64 = 256;

/// The mask that isolates the sub-pixel fraction of a coordinate.
pub const POLY_SUBPIXEL_MASK: i64 = 255;

/// The bit shift of the coarser mid-range sub-pixel precision.
pub const POLY_MR_SUBPIXEL_SHIFT: i64 = 4;

/// The largest half width, in pixels, that a line interpolator can cover.
pub const MAX_HALF_WIDTH: usize = 64;

/// The pixel that holds the sub-pixel coordinate `v`: `v / 256` rounded down.
pub open spec fn pixel_of(v: int) -> int {
    v / 256
}

/// The offset of the sub-pixel coordinate `v` inside its pixel, from 0 to 255.
pub open spec fn frac_of(v: int) -> int {
    v % 256
}

/// Returns the pixel that holds the sub-pixel coordinate `v`.
pub fn pixel_floor(v: i64) -> (r: i64)
    ensures
        r == pixel_of(v as int),
{
    assert(v >> 8 == v / 256) by (bit_vector);
    v >> 8
}

/// Returns the offset of the sub-pixel coordinate `v` inside its pixel.
pub fn pixel_frac(v: i64) -> (r: i64)
    ensures
        r == frac_of(v as int),
        0 <= r <= 255,
{
    assert(v & 255 == v % 256) by (bit_vector);
    v & 255
}

/// Returns the sub-pixel coordinate of the left or upper edge of the pixel that
/// holds `v`.
pub fn pixel_base(v: i64) -> (r: i64)
    ensures
        r == 256 * pixel_of(v as int),
        r <= v < r + 256,
{
    assert(v & !255i64 == 256 * (v / 256) && v & !255i64 <= v && v - (v & !255i64) < 256)
        by (bit_vector);
    v & !POLY_SUBPIXEL_MASK
}

/// Returns `v` pixels in sub-pixel units: `v * 256`.
pub fn to_subpixel(v: i64) -> (r: i64)
    requires
        -0x40_0000_0000_0000 <= v <= 0x40_0000_0000_0000,
    ensures
        r == v * 256,
{
    assert(v << 8 == v * 256) by (bit_vector)
        requires
            -0x40_0000_0000_0000 <= v <= 0x40_0000_0000_0000,
    ;
    v << POLY_SUBPIXEL_SHIFT
}

/// Returns a mid-range coordinate in sub-pixel units: `v * 16`.
pub fn mr_to_subpixel(v: i64) -> (r: i64)
    requires
        -0x400_0000_0000_0000 <= v <= 0x400_0000_0000_0000,
    ensures
        r == v * 16,
{
    assert(v << 4 == v * 16) by (bit_vector)
        requires
            -0x400_0000_0000_0000 <= v <= 0x400_0000_0000_0000,
    ;
    v << POLY_MR_SUBPIXEL_SHIFT
}

/// Returns the double area of a full-width strip of height `cover`: `cover * 512`.
pub fn cover_to_area(cover: i64) -> (r: i64)
    requires
        -0x10_0000_0000_0000 <= cover <= 0x10_0000_0000_0000,
    ensures
        r == cover * 512,
{
    assert(cover << 9 == cover * 512) by (bit_vector)
        requires
            -0x10_0000_0000_0000 <= cover <= 0x10_0000_0000_0000,
    ;
    cover << 9
}

/// Returns the coverage that a double area stands for, in 256ths of a pixel:
/// `area / 512` rounded down.
pub fn area_to_cover(area: i64) -> (r: i64)
    ensures
        r == area as int / 512,
{
    assert(area >> 9 == area / 512) by (bit_vector);
    area >> 9
}

/// Divides `p` by the positive `d`, rounding the quotient down.
///
/// Returns the quotient and the remainder, which is never negative.
pub fn floor_div_rem(p: i64, d: i64) -> (r: (i64, i64))
    requires
        d > 0,
        p > i64::MIN,
    ensures
        r.0 == p as int / d as int,
        r.1 == p as int % d as int,
        0 <= r.1 < d,
{
    let mut q: i64 = p / d;
    let mut m: i64 = p % d;
    proof {
        if p < 0 {
            vstd::arithmetic::div_mod::lemma_fundamental_div_mod(-(p as int), d as int);
            vstd::arithmetic::div_mod::lemma_mod_bound(-(p as int), d as int);
            vstd::arithmetic::div_mod::lemma_div_pos_is_pos(-(p as int), d as int);
            let a = (-(p as int)) / (d as int);
            assert(q == -a);
            assert(m == -((-(p as int)) % (d as int)));
            assert((-a) * d == -(d * a)) by (nonlinear_arith);
            assert((-a - 1) * d == -(d * a) - d) by (nonlinear_arith);
            assert(a <= -(p as int)) by (nonlinear_arith)
                requires
                    -(p as int) == d * a + (-(p as int)) % (d as int),
                    0 <= (-(p as int)) % (d as int),
                    d >= 1,
                    a >= 0,
            ;
        } else {
            vstd::arithmetic::div_mod::lemma_mod_bound(p as int, d as int);
        }
    }
    if m < 0 {
        q = q - 1;
        m = m + d;
    }
    proof {
        if p < 0 {
            vstd::arithmetic::div_mod::lemma_fundamental_div_mod_converse(
                p as int,
                d as int,
                q as int,
                m as int,
            );
        }
    }
    (q, m)
}

/// The product of two channel values read as fractions of 255, rounded to nearest.
pub open spec fn multiply_u8_spec(a: u8, b: u8) -> int {
    (2 * (a as int) * (b as int) + 255) / 510
}

/// Multiplies two channel values as fractions of 255.
pub fn multiply_u8(a: u8, b: u8) -> (r: u8)
    ensures
        r as int == multiply_u8_spec(a, b),
{
    let ghost ab: int = (a as int) * (b as int);
    assert(0 <= ab <= 255 * 255 && 2 * (a as int) * (b as int) == 2 * ab) by (nonlinear_arith)
        requires
            ab == (a as int) * (b as int),
            0 <= a <= 255,
            0 <= b <= 255,
    ;
    let t: u32 = (a as u32) * (b as u32) + 128;
    assert(t == ab + 128);
    assert((t >> 8) <= 255 && (((t >> 8) + t) as u32) >> 8 == (2 * (t - 128) + 255) / 510
        && (((t >> 8) + t) as u32) >> 8 <= 255) by (bit_vector)
        requires
            128 <= t <= 255 * 255 + 128,
    ;
    let tt: u32 = ((t >> 8) + t) >> 8;
    tt as u8
}

/// The signed quotient `n / 255` rounded to the nearest integer, halves away from zero.
pub open spec fn round_div_255(n: int) -> int {
    if n >= 0 {
        (2 * n + 255) / 510
    } else {
        -((2 * (-n) + 255) / 510)
    }
}

/// The value a fraction `a / 255` of the way from `p` to `q`.
pub open spec fn lerp_u8_spec(p: u8, q: u8, a: u8) -> int {
    p as int + round_div_255((q as int - p as int) * (a as int))
}

/// Interpolates from `p` towards `q` by the fraction `a / 255`.
pub fn lerp_u8(p: u8, q: u8, a: u8) -> (r: u8)
    ensures
        r as int == lerp_u8_spec(p, q, a),
        a == 0 ==> r == p,
        a == 255 ==> r == q,
{
    let v: i32 = if p > q { 1 } else { 0 };
    let d: i32 = (q as i32) - (p as i32);
    let ghost prod: int = (d as int) * (a as int);
    assert(-255 * 255 <= prod <= 255 * 255 && (d < 0 ==> prod <= 0) && (d >= 0 ==> prod >= 0))
        by (nonlinear_arith)
        requires
            prod == (d as int) * (a as int),
            -255 <= d <= 255,
            0 <= a <= 255,
    ;
    let m: i32 = d * (a as i32);
    assert(m == prod);
    let t0: i32 = m + 128 - v;
    assert(-256 <= (t0 >> 8) <= 255) by (bit_vector)
        requires
            -255 * 255 + 127 <= t0 <= 255 * 255 + 128,
    ;
    let t1: i32 = ((t0 >> 8) + t0) >> 8;
    assert(m >= 0 ==> (((t0 >> 8) + t0) as i32) >> 8 == (2 * m + 255) / 510) by (bit_vector)
        requires
            m >= 0 ==> t0 == m + 128 || (t0 == m + 127 && m == 0),
            -255 * 255 <= m <= 255 * 255,
    ;
    assert(m <= 0 ==> (((t0 >> 8) + t0) as i32) >> 8 == -((2 * (-m) + 255) / 510)) by (bit_vector)
        requires
            m <= 0 ==> t0 == m + 127 || (t0 == m + 128 && m == 0),
            -255 * 255 <= m <= 255 * 255,
    ;
    assert(t1 == round_div_255(m as int));
    proof {
        lemma_round_div_255_between(d as int, a as int);
    }
    (p as i32 + t1) as u8
}

/// A rounded fraction of a step lies between zero and the whole step.
proof fn lemma_round_div_255_between(d: int, a: int)
    requires
        -255 <= d <= 255,
        0 <= a <= 255,
    ensures
        d >= 0 ==> 0 <= round_div_255(d * a) <= d,
        d <= 0 ==> d <= round_div_255(d * a) <= 0,
        a == 0 ==> round_div_255(d * a) == 0,
        a == 255 ==> round_div_255(d * a) == d,
{
    assert(d >= 0 ==> 0 <= d * a <= 255 * d) by (nonlinear_arith)
        requires
            0 <= a <= 255,
    ;
    assert(d <= 0 ==> 255 * d <= d * a <= 0) by (nonlinear_arith)
        requires
            0 <= a <= 255,
    ;
    assert(a == 0 ==> d * a == 0) by (nonlinear_arith);
    assert(a == 255 ==> d * a == 255 * d) by (nonlinear_arith);
}

/// The value of `p + q - p * a / 255`, reduced modulo 256.
pub open spec fn prelerp_u8_spec(p: u8, q: u8, a: u8) -> int {
    (p as int + q as int - multiply_u8_spec(p, a)) % 256
}

/// The low eight bits of a coverage value.
pub open spec fn low_byte_spec(cover: u64) -> u8 {
    (cover % 256) as u8
}

/// Returns the low eight bits of a coverage value.
pub fn low_byte(cover: u64) -> (r: u8)
    ensures
        r == low_byte_spec(cover),
{
    assert((cover & 255) == cover % 256) by (bit_vector);
    assert((cover & 255) < 256) by (bit_vector);
    (cover & 255) as u8
}

/// Interpolates between `p` and `q` where `q` is already scaled by the fraction.
///
/// The result is `p + q - p * a / 255`, reduced modulo 256.
pub fn prelerp_u8(p: u8, q: u8, a: u8) -> (r: u8)
    ensures
        r as int == prelerp_u8_spec(p, q, a),
{
    let s: u8 = p.wrapping_add(q);
    let m: u8 = multiply_u8(p, a);
    s.wrapping_sub(m)
}

} // verus!
