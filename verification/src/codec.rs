//! Quantization: a reversible mapping between a bounded range of
//! fixed-point values and the full range of `u64`.
//!
//! The range `[min, max]` is laid evenly over `0 ..= u64::MAX`: `min` is
//! encoded as `0`, `max` as `u64::MAX`, and a value between them as the
//! nearest integer to its position in the range scaled by `u64::MAX`.
//! The quantized values keep the order of the values they stand for, so an
//! index can sort and filter by them.

use vstd::prelude::*;
use crate::rounding::{
    lemma_round_div_between, lemma_round_div_bounds, lemma_round_div_exact,
    lemma_round_div_monotonic, round_div, round_div_u128,
};

verus! {

/// `val`, moved to the nearer end of `[min, max]` when it lies outside.
pub open spec fn clamped(val: int, min: int, max: int) -> int {
    if val < min {
        min
    } else if val > max {
        max
    } else {
        val
    }
}

/// The quantized form of `val` in the range `[min, max]`.
pub open spec fn quantized(val: int, min: int, max: int) -> int {
    round_div((clamped(val, min, max) - min) * (u64::MAX as int), max - min)
}

/// The value in `[min, max]` that the quantized form `q` stands for.
pub open spec fn dequantized(q: int, min: int, max: int) -> int {
    min + round_div(q * (max - min), u64::MAX as int)
}

/// The distance between two integers.
pub open spec fn distance(a: int, b: int) -> int {
    if a <= b {
        b - a
    } else {
        a - b
    }
}

/// The ends of the range are encoded as the ends of `u64`, and every
/// quantized form lies in `u64`.
pub proof fn lemma_quantized_range(val: int, min: int, max: int)
    requires
        min < max,
    ensures
        0 <= quantized(val, min, max) <= u64::MAX,
        val <= min ==> quantized(val, min, max) == 0,
        val >= max ==> quantized(val, min, max) == u64::MAX,
{
    let u = u64::MAX as int;
    let d = max - min;
    let x = clamped(val, min, max) - min;
    assert(0 * d <= x * u && x * u <= u * d) by (nonlinear_arith)
        requires
            0 <= x <= d,
            u >= 0,
    ;
    lemma_round_div_between(x * u, d, 0, u);
    if val <= min {
        assert(x * u == 0 * d) by (nonlinear_arith)
            requires
                x == 0,
        ;
        lemma_round_div_exact(0, d);
    }
    if val >= max {
        assert(x * u == u * d) by (nonlinear_arith)
            requires
                x == d,
        ;
        lemma_round_div_exact(u, d);
    }
}

/// The ends of `u64` are decoded as the ends of the range, and every decoded
/// value lies in the range.
pub proof fn lemma_dequantized_range(q: int, min: int, max: int)
    requires
        min < max,
        0 <= q <= u64::MAX,
    ensures
        min <= dequantized(q, min, max) <= max,
        q == 0 ==> dequantized(q, min, max) == min,
        q == u64::MAX ==> dequantized(q, min, max) == max,
{
    let u = u64::MAX as int;
    let d = max - min;
    assert(0 * u <= q * d && q * d <= d * u) by (nonlinear_arith)
        requires
            0 <= q <= u,
            d >= 0,
    ;
    lemma_round_div_between(q * d, u, 0, d);
    if q == 0 {
        assert(q * d == 0 * u) by (nonlinear_arith)
            requires
                q == 0,
        ;
        lemma_round_div_exact(0, u);
    }
    if q == u {
        assert(q * d == d * u) by (nonlinear_arith)
            requires
                q == u,
        ;
        lemma_round_div_exact(d, u);
    }
}

/// Quantizing keeps the order of the values.
pub proof fn lemma_quantized_monotonic(a: int, b: int, min: int, max: int)
    requires
        min < max,
        a <= b,
    ensures
        quantized(a, min, max) <= quantized(b, min, max),
{
    let u = u64::MAX as int;
    let xa = clamped(a, min, max) - min;
    let xb = clamped(b, min, max) - min;
    assert(xa * u <= xb * u) by (nonlinear_arith)
        requires
            xa <= xb,
            u >= 0,
    ;
    lemma_round_div_monotonic(xa * u, xb * u, max - min);
}

/// Decoding keeps the order of the quantized forms.
pub proof fn lemma_dequantized_monotonic(a: int, b: int, min: int, max: int)
    requires
        min < max,
        0 <= a <= b,
    ensures
        dequantized(a, min, max) <= dequantized(b, min, max),
{
    let d = max - min;
    assert(a * d <= b * d) by (nonlinear_arith)
        requires
            a <= b,
            d >= 0,
    ;
    lemma_round_div_monotonic(a * d, b * d, u64::MAX as int);
}

/// Encoding a value of the range and decoding it again gives a value within
/// one quantization step, `(max - min) / u64::MAX`, of the encoded one;
/// where the range has no more values than `u64`, it gives the very value.
pub proof fn lemma_quantize_round_trip(val: int, min: int, max: int)
    requires
        min < max,
        min <= val <= max,
    ensures
        (u64::MAX as int) * distance(dequantized(quantized(val, min, max), min, max), val) <= max
            - min,
        max - min <= u64::MAX ==> dequantized(quantized(val, min, max), min, max) == val,
{
    let u = u64::MAX as int;
    let d = max - min;
    let x = val - min;
    let q = quantized(val, min, max);
    let y = round_div(q * d, u);
    assert(clamped(val, min, max) == val);
    assert(dequantized(q, min, max) == min + y);
    lemma_round_div_bounds(x * u, d);
    lemma_round_div_bounds(q * d, u);
    // 2 * u * (y - x) lies in (-(d + u), d + u]
    let k = y - x;
    assert(u * k == y * u - x * u) by (nonlinear_arith)
        requires
            k == y - x,
    ;
    assert(-(d + u) < 2 * (u * k) <= d + u);
    assert(distance(min + y, val) == if k >= 0 { k } else { -k });
    if d >= u {
        if k >= 0 {
            assert(u * distance(min + y, val) == u * k);
        } else {
            assert(u * (-k) == -(u * k)) by (nonlinear_arith);
        }
    } else {
        assert(k == 0) by (nonlinear_arith)
            requires
                -(d + u) < 2 * (u * k) <= d + u,
                0 < d < u,
        ;
        assert(u * 0 == 0);
    }
    if d == u {
        assert(x * u == x * d);
        lemma_round_div_exact(x, d);
        assert(q == x);
        lemma_round_div_exact(x, u);
    }
}

/// Encodes `val` in the range `[min, max]`; a value outside the range is
/// encoded as the nearer end.
pub fn quantize(val: i64, min: i64, max: i64) -> (q: u64)
    requires
        min < max,
    ensures
        q == quantized(val as int, min as int, max as int),
        val <= min ==> q == 0,
        val >= max ==> q == u64::MAX,
{
    let v: i64 = if val < min {
        min
    } else if val > max {
        max
    } else {
        val
    };
    let x: u128 = (v as i128 - min as i128) as u128;
    let d: u128 = (max as i128 - min as i128) as u128;
    proof {
        lemma_quantized_range(val as int, min as int, max as int);
        assert(x * (u64::MAX as int) <= u128::MAX) by (nonlinear_arith)
            requires
                0 <= x <= u64::MAX,
        ;
    }
    let num: u128 = x * (u64::MAX as u128);
    let q: u128 = round_div_u128(num, d);
    q as u64
}

/// Decodes `q` in the range `[min, max]`.
pub fn dequantize(q: u64, min: i64, max: i64) -> (val: i64)
    requires
        min < max,
    ensures
        val == dequantized(q as int, min as int, max as int),
        min <= val <= max,
        q == 0 ==> val == min,
        q == u64::MAX ==> val == max,
{
    let d: u128 = (max as i128 - min as i128) as u128;
    proof {
        lemma_dequantized_range(q as int, min as int, max as int);
        assert(q * d <= u128::MAX) by (nonlinear_arith)
            requires
                0 <= q <= u64::MAX,
                0 <= d <= u64::MAX,
        ;
    }
    let num: u128 = (q as u128) * d;
    let y: u128 = round_div_u128(num, u64::MAX as u128);
    (min as i128 + y as i128) as i64
}

} // verus!
