//! Fixed-point arithmetic used throughout the crate.
//!
//! An amplitude, phase or volume of `1.0` is represented by the integer
//! [`UNIT`]; a frequency of 1 Hz is represented by the integer 1000
//! (millihertz).  All divisions in the signal path round toward zero,
//! which the spec function [`tdiv`] captures.

use vstd::prelude::*;

verus! {

/// One whole unit of amplitude or phase: waveforms whose mathematical
/// range is `[0.0, 1.0]` produce values in `[0, UNIT]`.
pub const UNIT: i64 = 1048576;

/// Half of [`UNIT`].
pub const HALF_UNIT: i64 = 524288;

/// Largest amplitude magnitude a well-formed waveform may produce
/// (1024 whole units), so that every product in the signal path fits
/// comfortably in an `i64`.
pub const AMP_MAX: i64 = 1073741824;

/// Division rounding toward zero, the rounding of Rust's `/` operator,
/// for a positive divisor.
pub open spec fn tdiv(a: int, b: int) -> int {
    if a >= 0 {
        a / b
    } else {
        -((-a) / b)
    }
}

/// The fixed-point product of `a` and `b`: their integer product scaled
/// back down into units.
pub open spec fn scaled(a: int, b: int) -> int {
    tdiv(a * b, UNIT as int)
}

/// The smaller of two integers.
pub open spec fn min2(a: int, b: int) -> int {
    if a <= b {
        a
    } else {
        b
    }
}

/// The larger of two integers.
pub open spec fn max2(a: int, b: int) -> int {
    if a >= b {
        a
    } else {
        b
    }
}

/// `x` restricted to the interval `[lo, hi]`.
pub open spec fn clamp_spec(x: int, lo: int, hi: int) -> int {
    if x < lo {
        lo
    } else if x > hi {
        hi
    } else {
        x
    }
}

/// Restrict `x` to the interval `[lo, hi]`.
pub fn clamp64(x: i64, lo: i64, hi: i64) -> (r: i64)
    requires
        lo <= hi,
    ensures
        r as int == clamp_spec(x as int, lo as int, hi as int),
{
    if x < lo {
        lo
    } else if x > hi {
        hi
    } else {
        x
    }
}

/// The fractional part of a phase: the non-negative remainder of `t` by
/// one unit, whatever the sign of `t`.
pub fn wrap_phase(t: i64) -> (r: i64)
    ensures
        r as int == (t as int) % (UNIT as int),
        0 <= r < UNIT,
{
    let m = t % UNIT;
    if m < 0 {
        m + UNIT
    } else {
        m
    }
}

/// The slot that a fractional position selects among `len` equal bins:
/// `pos * len` scaled down into units, restricted to `[0, len - 1]`.
pub open spec fn slot_spec(pos: int, len: int) -> int {
    clamp_spec(pos * len / (UNIT as int), 0, len - 1)
}

/// Select one of `len` equal bins by a fractional position.
pub fn slot_index(pos: i64, len: usize) -> (i: usize)
    requires
        0 <= pos < UNIT,
        len >= 1,
    ensures
        i as int == slot_spec(pos as int, len as int),
        i < len,
{
    proof {
        assert(0 <= (pos as int) * (len as int) <= (UNIT as int) * (usize::MAX as int))
            by (nonlinear_arith)
            requires
                0 <= pos < UNIT,
                1 <= len <= usize::MAX,
        ;
    }
    let n: i128 = (pos as i128) * (len as i128);
    let p: i128 = n / (UNIT as i128);
    proof {
        assert((pos as int) * (len as int) < (len as int) * (UNIT as int)) by (nonlinear_arith)
            requires
                0 <= pos < UNIT,
                len >= 1,
        ;
        vstd::arithmetic::div_mod::lemma_multiply_divide_lt(
            (pos as int) * (len as int),
            UNIT as int,
            len as int,
        );
        vstd::arithmetic::div_mod::lemma_div_pos_is_pos((pos as int) * (len as int), UNIT as int);
    }
    p as usize
}

/// Magnitude of a truncating division by [`UNIT`] is bounded by the
/// magnitude bound of the dividend, divided by [`UNIT`].
pub proof fn lemma_tdiv_le(p: int, c: int)
    requires
        -c <= p <= c,
    ensures
        -(c / (UNIT as int)) <= tdiv(p, UNIT as int) <= c / (UNIT as int),
{
    if p >= 0 {
        vstd::arithmetic::div_mod::lemma_div_is_ordered(p, c, UNIT as int);
        vstd::arithmetic::div_mod::lemma_div_pos_is_pos(p, UNIT as int);
        vstd::arithmetic::div_mod::lemma_div_pos_is_pos(c, UNIT as int);
    } else {
        vstd::arithmetic::div_mod::lemma_div_is_ordered(-p, c, UNIT as int);
        vstd::arithmetic::div_mod::lemma_div_pos_is_pos(-p, UNIT as int);
        vstd::arithmetic::div_mod::lemma_div_pos_is_pos(c, UNIT as int);
    }
}

/// Truncating division by [`UNIT`] is monotone.
pub proof fn lemma_tdiv_monotone(a: int, b: int)
    requires
        a <= b,
    ensures
        tdiv(a, UNIT as int) <= tdiv(b, UNIT as int),
{
    if a >= 0 {
        vstd::arithmetic::div_mod::lemma_div_is_ordered(a, b, UNIT as int);
    } else if b >= 0 {
        vstd::arithmetic::div_mod::lemma_div_pos_is_pos(-a, UNIT as int);
        vstd::arithmetic::div_mod::lemma_div_pos_is_pos(b, UNIT as int);
    } else {
        vstd::arithmetic::div_mod::lemma_div_is_ordered(-b, -a, UNIT as int);
    }
}

/// Over a box, a product of two factors is bracketed by the products
/// at the box's corners.
pub proof fn lemma_mul_box(x: int, y: int, xl: int, xh: int, yl: int, yh: int)
    requires
        xl <= x <= xh,
        yl <= y <= yh,
    ensures
        min2(min2(xl * yl, xl * yh), min2(xh * yl, xh * yh)) <= x * y,
        x * y <= max2(max2(xl * yl, xl * yh), max2(xh * yl, xh * yh)),
{
    if y >= 0 {
        assert(xl * y <= x * y && x * y <= xh * y) by (nonlinear_arith)
            requires
                xl <= x <= xh,
                y >= 0,
        ;
        if xl >= 0 {
            assert(xl * yl <= xl * y) by (nonlinear_arith)
                requires
                    yl <= y,
                    xl >= 0,
            ;
        } else {
            assert(xl * yh <= xl * y) by (nonlinear_arith)
                requires
                    y <= yh,
                    xl < 0,
            ;
        }
        if xh >= 0 {
            assert(xh * y <= xh * yh) by (nonlinear_arith)
                requires
                    y <= yh,
                    xh >= 0,
            ;
        } else {
            assert(xh * y <= xh * yl) by (nonlinear_arith)
                requires
                    yl <= y,
                    xh < 0,
            ;
        }
    } else {
        assert(xh * y <= x * y && x * y <= xl * y) by (nonlinear_arith)
            requires
                xl <= x <= xh,
                y < 0,
        ;
        if xh >= 0 {
            assert(xh * yl <= xh * y) by (nonlinear_arith)
                requires
                    yl <= y,
                    xh >= 0,
            ;
        } else {
            assert(xh * yh <= xh * y) by (nonlinear_arith)
                requires
                    y <= yh,
                    xh < 0,
            ;
        }
        if xl >= 0 {
            assert(xl * y <= xl * yh) by (nonlinear_arith)
                requires
                    y <= yh,
                    xl >= 0,
            ;
        } else {
            assert(xl * y <= xl * yl) by (nonlinear_arith)
                requires
                    yl <= y,
                    xl < 0,
            ;
        }
    }
}

/// Compute [`scaled`] exactly, going through `i128` so that the
/// intermediate product cannot overflow.
pub fn mul_unit(a: i64, b: i64) -> (r: i64)
    requires
        i64::MIN <= scaled(a as int, b as int) <= i64::MAX,
    ensures
        r as int == scaled(a as int, b as int),
{
    let p: i128 = (a as i128) * (b as i128);
    let q: i128 = if p >= 0 {
        p / (UNIT as i128)
    } else {
        -((-p) / (UNIT as i128))
    };
    q as i64
}

} // verus!
