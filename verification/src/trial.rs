//! One trial's day-by-day compounding walk, and the parallel fan-out over
//! many independent trials.
//!
//! A trial starts from the notional base value `SCALE` (one) and walks a
//! day index from zero: each day a signal draw gates whether the day's
//! return is applied, and the regime schedule together with the policy flag
//! decides which volatility draw (if any) the day consumes. The draws are
//! supplied per day; whoever draws them decides each day's distribution
//! with [`crate::regime::volatility_kind`]. On a day that needs no draw
//! the volatility entry is ignored.

use vstd::prelude::*;
use crate::regime::{DayOutcome, day_outcome, day_outcome_spec, is_high_volatility_spec};
use crate::value::{SCALE, apply_factor, apply_factor_spec, day_factor_spec, lemma_apply_factor_in_range};
use rayon::iter::IntoParallelRefIterator;
use rayon::iter::ParallelIterator;

verus! {

/// The running value after the first `day` days of a trial, from the
/// per-day signal and volatility draws.
pub open spec fn value_after(
    play_on_high_volatility: bool,
    threshold: int,
    signals: Seq<i64>,
    vols: Seq<i64>,
    day: nat,
) -> int
    decreases day,
{
    if day == 0 {
        SCALE as int
    } else {
        let d = (day - 1) as nat;
        let prev = value_after(play_on_high_volatility, threshold, signals, vols, d);
        match day_outcome_spec(d as int, play_on_high_volatility, threshold, signals[d as int] as int, vols[d as int] as int) {
            DayOutcome::Abstain => prev,
            DayOutcome::Hold => prev,
            DayOutcome::Apply { factor } => apply_factor_spec(prev, factor as int),
        }
    }
}

/// A running value always stays in the non-negative range of `u64`.
pub proof fn lemma_value_after_in_range(
    play_on_high_volatility: bool,
    threshold: int,
    signals: Seq<i64>,
    vols: Seq<i64>,
    day: nat,
)
    ensures
        0 <= value_after(play_on_high_volatility, threshold, signals, vols, day) <= u64::MAX,
    decreases day,
{
    if day > 0 {
        let d = (day - 1) as nat;
        lemma_value_after_in_range(play_on_high_volatility, threshold, signals, vols, d);
        let prev = value_after(play_on_high_volatility, threshold, signals, vols, d);
        match day_outcome_spec(d as int, play_on_high_volatility, threshold, signals[d as int] as int, vols[d as int] as int) {
            DayOutcome::Abstain => {},
            DayOutcome::Hold => {},
            DayOutcome::Apply { factor } => {
                lemma_apply_factor_in_range(prev, factor as int);
            },
        }
    }
}

/// Runs one trial: compounds the base value over `steps` days from the
/// supplied per-day draws.
pub fn run_trial(
    play_on_high_volatility: bool,
    threshold: i64,
    steps: usize,
    signals: &Vec<i64>,
    vols: &Vec<i64>,
) -> (v: u64)
    requires
        signals@.len() == steps,
        vols@.len() == steps,
    ensures
        v as int == value_after(play_on_high_volatility, threshold as int, signals@, vols@, steps as nat),
{
    let mut value: u64 = SCALE as u64;
    let mut i: usize = 0;
    while i < steps
        invariant
            i <= steps,
            signals@.len() == steps,
            vols@.len() == steps,
            value as int == value_after(play_on_high_volatility, threshold as int, signals@, vols@, i as nat),
        decreases steps - i,
    {
        match day_outcome(i, play_on_high_volatility, threshold, signals[i], vols[i]) {
            DayOutcome::Abstain => {},
            DayOutcome::Hold => {},
            DayOutcome::Apply { factor } => {
                value = apply_factor(value, factor);
            },
        }
        i = i + 1;
    }
    value
}

/// The per-day draws of one trial: one signal per day, and one volatility
/// error per day (ignored on the days that consume no volatility draw).
pub struct TrialDraws {
    pub signals: Vec<i64>,
    pub vols: Vec<i64>,
}

impl TrialDraws {
    /// The draws cover every day of a trial of `steps` days.
    pub open spec fn wf(&self, steps: int) -> bool {
        self.signals@.len() == steps && self.vols@.len() == steps
    }
}

/// Relies on rayon: `par_iter().map(f).collect::<Vec<_>>()` applies `f` to
/// each element, in parallel, and collects one result per element in the
/// input's order.
#[verifier::external_body]
fn par_map_trials(
    play_on_high_volatility: bool,
    threshold: i64,
    steps: usize,
    trials: &Vec<TrialDraws>,
) -> (out: Vec<u64>)
    requires
        forall|t: int| 0 <= t < trials@.len() ==> (#[trigger] trials@[t]).wf(steps as int),
    ensures
        out@.len() == trials@.len(),
        forall|t: int| 0 <= t < trials@.len() ==> (#[trigger] out@[t]) as int
            == value_after(play_on_high_volatility, threshold as int, trials@[t].signals@, trials@[t].vols@, steps as nat),
{
    trials
        .par_iter()
        .map(|d| run_trial(play_on_high_volatility, threshold, steps, &d.signals, &d.vols))
        .collect()
}

/// Runs every trial independently, in parallel, and joins the results:
/// exactly one terminal value per trial, in the trials' order.
pub fn run_trials(
    play_on_high_volatility: bool,
    threshold: i64,
    steps: usize,
    trials: &Vec<TrialDraws>,
) -> (out: Vec<u64>)
    requires
        forall|t: int| 0 <= t < trials@.len() ==> (#[trigger] trials@[t]).wf(steps as int),
    ensures
        out@.len() == trials@.len(),
        forall|t: int| 0 <= t < trials@.len() ==> (#[trigger] out@[t]) as int
            == value_after(play_on_high_volatility, threshold as int, trials@[t].signals@, trials@[t].vols@, steps as nat),
{
    par_map_trials(play_on_high_volatility, threshold, steps, trials)
}

/// With no days to walk, every trial's terminal value is exactly the base
/// value (one), whatever the draws and the policy.
pub proof fn lemma_zero_steps_terminal(
    play_on_high_volatility: bool,
    threshold: int,
    signals: Seq<i64>,
    vols: Seq<i64>,
)
    ensures
        value_after(play_on_high_volatility, threshold, signals, vols, 0) == SCALE,
{
}

/// Under the abstaining policy, the running value does not change on a
/// high-volatility day.
pub proof fn lemma_abstain_preserves_value(
    threshold: int,
    signals: Seq<i64>,
    vols: Seq<i64>,
    day: nat,
)
    requires
        is_high_volatility_spec(day as int),
    ensures
        value_after(false, threshold, signals, vols, day + 1)
            == value_after(false, threshold, signals, vols, day),
{
}

/// While the signal never clears the threshold, the running value stays at
/// the base value (one), whatever the volatility draws and the policy.
pub proof fn lemma_below_threshold_holds_base(
    play_on_high_volatility: bool,
    threshold: int,
    signals: Seq<i64>,
    vols: Seq<i64>,
    day: nat,
)
    requires
        forall|d: int| 0 <= d < day ==> (#[trigger] signals[d]) as int <= threshold,
    ensures
        value_after(play_on_high_volatility, threshold, signals, vols, day) == SCALE,
    decreases day,
{
    if day > 0 {
        lemma_below_threshold_holds_base(play_on_high_volatility, threshold, signals, vols, (day - 1) as nat);
    }
}

/// The `n`-fold compounding of a constant scaled day factor onto the base
/// value.
pub open spec fn compounded(factor: int, n: nat) -> int
    decreases n,
{
    if n == 0 {
        SCALE as int
    } else {
        apply_factor_spec(compounded(factor, (n - 1) as nat), factor)
    }
}

/// When the constant day factor is a whole multiple of the base value —
/// the per-day return multiplies the value by the whole number `m` — no
/// rounding occurs and the compounding is an exact integer power: after
/// `n` days the value is `SCALE * m^n`.
pub proof fn lemma_whole_factor_exact_power(m: int, n: nat)
    requires
        m >= 1,
        SCALE * vstd::arithmetic::power::pow(m, n) <= u64::MAX,
    ensures
        compounded(m * SCALE, n) == SCALE * vstd::arithmetic::power::pow(m, n),
    decreases n,
{
    reveal(vstd::arithmetic::power::pow);
    vstd::arithmetic::power::lemma_pow_positive(m, n);
    if n == 0 {
        vstd::arithmetic::power::lemma_pow0(m);
    } else {
        let e = (n - 1) as nat;
        let p = vstd::arithmetic::power::pow(m, e);
        vstd::arithmetic::power::lemma_pow_positive(m, e);
        assert(vstd::arithmetic::power::pow(m, n) == m * p);
        assert(SCALE * p <= SCALE * (m * p)) by (nonlinear_arith)
            requires
                m >= 1,
                p >= 1,
                SCALE >= 1,
        ;
        lemma_whole_factor_exact_power(m, e);
        let prev = SCALE * p;
        assert(prev * (m * SCALE) == (prev * m) * SCALE) by (nonlinear_arith);
        vstd::arithmetic::div_mod::lemma_div_by_multiple(prev * m, SCALE as int);
        assert(prev * m == SCALE * (m * p)) by (nonlinear_arith)
            requires
                prev == SCALE * p,
        ;
    }
}

/// With a constant above-threshold signal and a constant volatility error
/// on every day, trading through high-volatility days, the terminal value
/// is exactly the day count's compounding of the one day factor.
pub proof fn lemma_constant_draws_compound(
    threshold: int,
    signal: i64,
    vol: i64,
    signals: Seq<i64>,
    vols: Seq<i64>,
    day: nat,
)
    requires
        signal as int > threshold,
        forall|d: int| 0 <= d < day ==> (#[trigger] signals[d]) == signal,
        forall|d: int| 0 <= d < day ==> (#[trigger] vols[d]) == vol,
    ensures
        value_after(true, threshold, signals, vols, day)
            == compounded(day_factor_spec(signal as int, vol as int), day),
    decreases day,
{
    if day > 0 {
        lemma_constant_draws_compound(threshold, signal, vol, signals, vols, (day - 1) as nat);
    }
}

} // verus!
