//! Fixed-point arithmetic for portfolio values and daily returns.
//!
//! A quantity `x` stands for the real number `x / SCALE`. Signals and
//! volatility errors are signed (`i64`); a running portfolio value is
//! non-negative (`u64`), starting from the notional base `SCALE` (one).

use vstd::prelude::*;

verus! {

/// Number of fixed-point units in `1.0`.
pub const SCALE: i64 = 1_000_000;

/// `x` clamped into the range of `i64`.
pub open spec fn clamp_i64(x: int) -> int {
    if x > i64::MAX {
        i64::MAX as int
    } else if x < i64::MIN {
        i64::MIN as int
    } else {
        x
    }
}

/// The scaled day factor `1 + signal + volatility`, clamped into `i64`.
pub open spec fn day_factor_spec(signal: int, vol: int) -> int {
    clamp_i64(SCALE + signal + vol)
}

/// Computes the scaled day factor `1 + signal + vol` (saturating).
pub fn day_factor(signal: i64, vol: i64) -> (f: i64)
    ensures
        f as int == day_factor_spec(signal as int, vol as int),
{
    let wide: i128 = SCALE as i128 + signal as i128 + vol as i128;
    if wide > i64::MAX as i128 {
        i64::MAX
    } else if wide < i64::MIN as i128 {
        i64::MIN
    } else {
        wide as i64
    }
}

/// One multiplicative update of a running value by a scaled factor:
/// `v * f / SCALE`, floored, clamped into the non-negative range of `u64`.
pub open spec fn apply_factor_spec(v: int, f: int) -> int {
    if f <= 0 {
        0
    } else if v * f / (SCALE as int) > u64::MAX {
        u64::MAX as int
    } else {
        v * f / (SCALE as int)
    }
}

/// Multiplies a running value by a scaled day factor (floored, saturating;
/// a non-positive factor floors the value at zero).
pub fn apply_factor(v: u64, f: i64) -> (r: u64)
    ensures
        r as int == apply_factor_spec(v as int, f as int),
{
    if f <= 0 {
        0
    } else {
        let wv: u128 = v as u128;
        let wf: u128 = f as u128;
        proof {
            assert(wv * wf <= u128::MAX) by (nonlinear_arith)
                requires
                    wv <= u64::MAX,
                    wf <= i64::MAX as u128,
            ;
        }
        let p: u128 = wv * wf;
        let q: u128 = p / (SCALE as u128);
        if q > u64::MAX as u128 {
            u64::MAX
        } else {
            q as u64
        }
    }
}

/// The result of one update stays within the non-negative range of `u64`.
pub proof fn lemma_apply_factor_in_range(v: int, f: int)
    requires
        0 <= v <= u64::MAX,
    ensures
        0 <= apply_factor_spec(v, f) <= u64::MAX,
{
    if f > 0 {
        assert(v * f >= 0) by (nonlinear_arith)
            requires
                v >= 0,
                f > 0,
        ;
        vstd::arithmetic::div_mod::lemma_div_pos_is_pos(v * f, SCALE as int);
    }
}

} // verus!
