//! The volatility-regime schedule and the per-day trading decision.
//!
//! One day in every block of thirty, at a fixed offset, is a
//! high-volatility day. On such a day the policy flag decides whether the
//! strategy trades through the elevated regime or abstains entirely.

use vstd::prelude::*;
use crate::value::{day_factor, day_factor_spec};

verus! {

/// A day is high-volatility iff its index falls at offset twenty of its
/// thirty-day block.
pub open spec fn is_high_volatility_spec(day: int) -> bool {
    day % 30 == 20
}

/// Decides whether a day index falls in the high-volatility regime.
pub fn is_high_volatility_day(day: usize) -> (b: bool)
    ensures
        b == is_high_volatility_spec(day as int),
{
    day % 30 == 20
}

/// High-volatility days are exactly the days `30 * k + 20`.
pub proof fn lemma_high_volatility_schedule(day: int)
    requires
        0 <= day,
    ensures
        is_high_volatility_spec(day) <==> exists|k: int| 0 <= k && day == #[trigger] (30 * k) + 20,
{
    if is_high_volatility_spec(day) {
        vstd::arithmetic::div_mod::lemma_fundamental_div_mod(day, 30);
        vstd::arithmetic::div_mod::lemma_div_pos_is_pos(day, 30);
        assert(day == 30 * (day / 30) + 20);
    }
    if exists|k: int| 0 <= k && day == #[trigger] (30 * k) + 20 {
        let k = choose|k: int| 0 <= k && day == #[trigger] (30 * k) + 20;
        vstd::arithmetic::div_mod::lemma_fundamental_div_mod_converse(day, 30, k, 20);
    }
}

/// Which volatility draw a day needs under a policy: none (the strategy
/// abstains), a normal-regime draw, or a high-volatility-regime draw.
#[derive(Clone, Copy, Debug, PartialEq, Eq, Structural)]
pub enum VolatilityKind {
    Skip,
    Normal,
    High,
}

/// The volatility draw that a day needs under a policy.
pub open spec fn volatility_kind_spec(day: int, play_on_high_volatility: bool) -> VolatilityKind {
    if is_high_volatility_spec(day) {
        if play_on_high_volatility {
            VolatilityKind::High
        } else {
            VolatilityKind::Skip
        }
    } else {
        VolatilityKind::Normal
    }
}

/// Decides which volatility draw a day needs under a policy.
pub fn volatility_kind(day: usize, play_on_high_volatility: bool) -> (k: VolatilityKind)
    ensures
        k == volatility_kind_spec(day as int, play_on_high_volatility),
{
    if is_high_volatility_day(day) {
        if play_on_high_volatility {
            VolatilityKind::High
        } else {
            VolatilityKind::Skip
        }
    } else {
        VolatilityKind::Normal
    }
}

/// The explicit outcome of one day: the policy kept the strategy out of
/// the market, the signal did not clear the threshold (value unchanged,
/// though a volatility error was drawn and discarded), or a return is
/// applied by multiplying with the scaled day factor.
#[derive(Clone, Copy, Debug, PartialEq, Eq, Structural)]
pub enum DayOutcome {
    Abstain,
    Hold,
    Apply { factor: i64 },
}

/// The outcome of one day given its draws, the threshold and the policy.
pub open spec fn day_outcome_spec(
    day: int,
    play_on_high_volatility: bool,
    threshold: int,
    signal: int,
    vol: int,
) -> DayOutcome {
    if is_high_volatility_spec(day) && !play_on_high_volatility {
        DayOutcome::Abstain
    } else if signal > threshold {
        DayOutcome::Apply { factor: day_factor_spec(signal, vol) as i64 }
    } else {
        DayOutcome::Hold
    }
}

/// Evaluates one day: abstains on a flagged day under the cautious policy,
/// holds when the signal does not clear the threshold, and otherwise
/// applies the day's return.
pub fn day_outcome(
    day: usize,
    play_on_high_volatility: bool,
    threshold: i64,
    signal: i64,
    vol: i64,
) -> (o: DayOutcome)
    ensures
        o == day_outcome_spec(day as int, play_on_high_volatility, threshold as int, signal as int, vol as int),
{
    if is_high_volatility_day(day) && !play_on_high_volatility {
        DayOutcome::Abstain
    } else if signal > threshold {
        DayOutcome::Apply { factor: day_factor(signal, vol) }
    } else {
        DayOutcome::Hold
    }
}

} // verus!
