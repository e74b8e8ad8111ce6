//! Time bases and the conversion of timestamps between them.

use vstd::prelude::*;
use vstd::arithmetic::div_mod::lemma_fundamental_div_mod_converse;

verus! {

/// A time base: one tick lasts `num / den` seconds.
#[derive(Debug, Clone, Copy, PartialEq, Eq, Structural)]
pub struct Rational {
    pub num: i32,
    pub den: i32,
}

/// Whether a time base is one that a stream has: demuxers and muxers give
/// every stream a positive numerator and denominator.
pub open spec fn is_valid_time_base(tb: Rational) -> bool {
    tb.num > 0 && tb.den > 0
}

/// Microseconds in a second; times in the library are counted in
/// microseconds.
pub const MICROS_PER_SECOND: i64 = 1_000_000;

/// Whether a value fits in `i64`.
pub open spec fn fits_i64(x: int) -> bool {
    i64::MIN <= x <= i64::MAX
}

/// A timestamp of `ticks` in time base `tb`, in whole microseconds rounded
/// down (for a time base with a positive denominator).
pub open spec fn micros_of_ticks(ticks: int, tb: Rational) -> int {
    (ticks * tb.num * MICROS_PER_SECOND) / (tb.den as int)
}

/// Division rounding toward zero.
pub open spec fn div_toward_zero(p: int, q: int) -> int {
    if p >= 0 {
        p / q
    } else {
        -((-p) / q)
    }
}

/// A duration of `micros` microseconds in ticks of time base `tb`, rounded
/// toward zero (for a time base with a positive numerator and denominator).
pub open spec fn ticks_of_micros(micros: int, tb: Rational) -> int {
    div_toward_zero(micros * tb.den, tb.num * MICROS_PER_SECOND)
}

/// Converts a timestamp in ticks of `tb` to microseconds, rounding down.
/// Gives `None` when the time base's denominator is not positive or the
/// result does not fit in `i64`.
pub fn ticks_to_micros(ticks: i64, tb: Rational) -> (r: Option<i64>)
    ensures
        r == (if tb.den > 0 && fits_i64(micros_of_ticks(ticks as int, tb)) {
            Some(micros_of_ticks(ticks as int, tb) as i64)
        } else {
            None::<i64>
        }),
{
    if tb.den <= 0 {
        return None;
    }
    let q: i128 = tb.den as i128;
    assert(-0x8000_0000 <= tb.num <= 0x7fff_ffff);
    assert(-0x4000_0000_0000_0000_0000_0000 <= ticks as int * tb.num as int <= 0x4000_0000_0000_0000_0000_0000) by (nonlinear_arith)
        requires
            -0x8000_0000_0000_0000 <= ticks <= 0x7fff_ffff_ffff_ffff,
            -0x8000_0000 <= tb.num <= 0x7fff_ffff,
    ;
    let a: i128 = ticks as i128 * tb.num as i128;
    let p: i128 = a * 1_000_000;
    let ghost spec_q = micros_of_ticks(ticks as int, tb);
    assert(p == ticks as int * tb.num as int * MICROS_PER_SECOND) by (nonlinear_arith)
        requires
            p == a * 1_000_000,
            a == ticks as int * tb.num as int,
    ;
    let v: i128 = if p >= 0 {
        p / q
    } else {
        let m: i128 = -p - 1;
        let d: i128 = m / q;
        proof {
            let r = m % q;
            assert(m == q * (m / q) + m % q && 0 <= m % q < q) by {
                vstd::arithmetic::div_mod::lemma_fundamental_div_mod(m as int, q as int);
                vstd::arithmetic::div_mod::lemma_mod_bound(m as int, q as int);
            }
            assert(p == (-d - 1) * q + (q - r - 1)) by (nonlinear_arith)
                requires
                    m == q * d + r,
                    m == -p - 1,
            ;
            lemma_fundamental_div_mod_converse(p as int, q as int, -d - 1, q - r - 1);
        }
        -d - 1
    };
    assert(v == spec_q);
    if v < i64::MIN as i128 || v > i64::MAX as i128 {
        None
    } else {
        Some(v as i64)
    }
}

/// Converts a duration in microseconds to ticks of `tb`, rounding toward
/// zero. Gives `None` when the time base is not positive or the result does
/// not fit in `i64`.
pub fn micros_to_ticks(micros: i64, tb: Rational) -> (r: Option<i64>)
    ensures
        r == (if tb.num > 0 && tb.den > 0 && fits_i64(ticks_of_micros(micros as int, tb)) {
            Some(ticks_of_micros(micros as int, tb) as i64)
        } else {
            None::<i64>
        }),
{
    if tb.num <= 0 || tb.den <= 0 {
        return None;
    }
    let q: i128 = tb.num as i128 * 1_000_000;
    assert(-0x4000_0000_0000_0000_0000_0000 <= micros as int * tb.den as int <= 0x4000_0000_0000_0000_0000_0000) by (nonlinear_arith)
        requires
            -0x8000_0000_0000_0000 <= micros <= 0x7fff_ffff_ffff_ffff,
            0 < tb.den <= 0x7fff_ffff,
    ;
    let p: i128 = micros as i128 * tb.den as i128;
    let v: i128 = if p >= 0 { p / q } else { -((-p) / q) };
    if v < i64::MIN as i128 || v > i64::MAX as i128 {
        None
    } else {
        Some(v as i64)
    }
}

} // verus!
