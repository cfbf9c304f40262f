//! The full pipeline of one scenario, and the comparison of the two policy
//! variants over the same bucket edges.

use vstd::prelude::*;
use crate::config::SimulationConfig;
use crate::histogram::{Histogram, aggregate, all_in_domain, bucket_of, count_landing, lemma_constant_outcomes_concentrate, lemma_histogram_mass, sum_counts};
use crate::trial::{TrialDraws, lemma_below_threshold_holds_base, lemma_value_after_in_range, run_trials, value_after};
use crate::value::SCALE;

verus! {

/// The terminal value of one trial under a configuration.
pub open spec fn terminal_of(cfg: SimulationConfig, draws: TrialDraws) -> int {
    value_after(
        cfg.play_on_high_volatility,
        cfg.signal_threshold as int,
        draws.signals@,
        draws.vols@,
        cfg.steps as nat,
    )
}

/// The collected terminal values of all trials under a configuration.
pub open spec fn outcomes_of(cfg: SimulationConfig, trials: Seq<TrialDraws>) -> Seq<u64> {
    trials.map_values(|d: TrialDraws| terminal_of(cfg, d) as u64)
}

/// The draws of every trial cover every day of the configured walk.
pub open spec fn trials_wf(trials: Seq<TrialDraws>, steps: int) -> bool {
    forall|t: int| 0 <= t < trials.len() ==> (#[trigger] trials[t]).wf(steps)
}

/// The histogram `counts` is exactly the aggregation of the configured
/// trials' terminal values over the configured edges.
pub open spec fn histogram_of(
    cfg: SimulationConfig,
    trials: Seq<TrialDraws>,
    counts: Seq<usize>,
) -> bool {
    &&& counts.len() == cfg.edges.count_spec()
    &&& forall|b: int| 0 <= b < cfg.edges.count_spec() ==> ((#[trigger] counts[b]) as int)
        == count_landing(
        outcomes_of(cfg, trials),
        b,
        cfg.edges.width_spec(),
        cfg.edges.count_spec(),
    )
}

/// Runs every trial (in parallel), joins the terminal values, and
/// aggregates them into the configured histogram.
pub fn run_pipeline(cfg: &SimulationConfig, trials: &Vec<TrialDraws>) -> (h: Histogram)
    requires
        cfg.wf(),
        trials_wf(trials@, cfg.steps as int),
    ensures
        histogram_of(*cfg, trials@, h.counts@),
{
    let out = run_trials(
        cfg.play_on_high_volatility,
        cfg.signal_threshold,
        cfg.steps,
        trials,
    );
    proof {
        assert forall|t: int| 0 <= t < trials@.len() implies out@[t] == outcomes_of(*cfg, trials@)[t] by {
            lemma_value_after_in_range(
                cfg.play_on_high_volatility,
                cfg.signal_threshold as int,
                trials@[t].signals@,
                trials@[t].vols@,
                cfg.steps as nat,
            );
        }
        assert(out@ =~= outcomes_of(*cfg, trials@));
    }
    aggregate(&out, &cfg.edges)
}

/// The configuration with the policy set to trade through flagged days.
pub open spec fn risk_variant(cfg: SimulationConfig) -> SimulationConfig {
    SimulationConfig { play_on_high_volatility: true, ..cfg }
}

/// The configuration with the policy set to abstain on flagged days.
pub open spec fn safe_variant(cfg: SimulationConfig) -> SimulationConfig {
    SimulationConfig { play_on_high_volatility: false, ..cfg }
}

/// A histogram paired with its scenario's label.
pub struct ScenarioResult {
    pub label: &'static str,
    pub histogram: Histogram,
}

/// Runs the pipeline twice over configurations identical but for the
/// policy flag — trading through high-volatility days ("risk") against
/// abstaining on them ("safe") — yielding two labeled histograms over the
/// same bucket edges.
pub fn compare_scenarios(
    cfg: &SimulationConfig,
    trials_risk: &Vec<TrialDraws>,
    trials_safe: &Vec<TrialDraws>,
) -> (r: (ScenarioResult, ScenarioResult))
    requires
        cfg.wf(),
        trials_wf(trials_risk@, cfg.steps as int),
        trials_wf(trials_safe@, cfg.steps as int),
    ensures
        r.0.label@ == "risk"@,
        r.1.label@ == "safe"@,
        histogram_of(risk_variant(*cfg), trials_risk@, r.0.histogram.counts@),
        histogram_of(safe_variant(*cfg), trials_safe@, r.1.histogram.counts@),
{
    let mut risk_cfg = *cfg;
    risk_cfg.play_on_high_volatility = true;
    let mut safe_cfg = *cfg;
    safe_cfg.play_on_high_volatility = false;
    assert(risk_cfg == risk_variant(*cfg));
    assert(safe_cfg == safe_variant(*cfg));
    let risk_hist = run_pipeline(&risk_cfg, trials_risk);
    let safe_hist = run_pipeline(&safe_cfg, trials_safe);
    (
        ScenarioResult { label: "risk", histogram: risk_hist },
        ScenarioResult { label: "safe", histogram: safe_hist },
    )
}

/// A scenario's histogram counts at most one per trial in total, and
/// exactly one per trial iff every trial's terminal value lands inside the
/// covered domain.
pub proof fn lemma_scenario_mass(cfg: SimulationConfig, trials: Seq<TrialDraws>, counts: Seq<usize>)
    requires
        cfg.edges.wf(),
        histogram_of(cfg, trials, counts),
    ensures
        sum_counts(counts) <= trials.len(),
        (sum_counts(counts) == trials.len()) <==> all_in_domain(
            outcomes_of(cfg, trials),
            cfg.edges.domain_spec(),
        ),
{
    lemma_histogram_mass(
        counts,
        outcomes_of(cfg, trials),
        cfg.edges.width_spec(),
        cfg.edges.count_spec(),
    );
}

/// When no trial's signal ever clears the threshold, every terminal value
/// is exactly the base value (one), and the whole histogram mass — one
/// count per trial — sits in the single bucket covering the base value.
pub proof fn lemma_quiet_run_concentrates(
    cfg: SimulationConfig,
    trials: Seq<TrialDraws>,
    counts: Seq<usize>,
    b: int,
)
    requires
        cfg.edges.wf(),
        histogram_of(cfg, trials, counts),
        forall|t: int, d: int| 0 <= t < trials.len() && 0 <= d < cfg.steps
            ==> (((#[trigger] trials[t].signals@[d]) as int) <= cfg.signal_threshold),
        bucket_of(SCALE as int, cfg.edges.width_spec(), cfg.edges.count_spec()) == Some(b),
    ensures
        0 <= b < counts.len(),
        counts[b] == trials.len(),
        forall|b2: int| 0 <= b2 < counts.len() && b2 != b ==> (#[trigger] counts[b2]) == 0,
{
    let outs = outcomes_of(cfg, trials);
    proof_bucket_in_range(cfg, b);
    assert forall|t: int| 0 <= t < outs.len() implies (#[trigger] outs[t]) == (SCALE as u64) by {
        lemma_below_threshold_holds_base(
            cfg.play_on_high_volatility,
            cfg.signal_threshold as int,
            trials[t].signals@,
            trials[t].vols@,
            cfg.steps as nat,
        );
    }
    lemma_constant_outcomes_concentrate(
        outs,
        SCALE as u64,
        cfg.edges.width_spec(),
        cfg.edges.count_spec(),
        b,
    );
}

proof fn proof_bucket_in_range(cfg: SimulationConfig, b: int)
    requires
        cfg.edges.wf(),
        bucket_of(SCALE as int, cfg.edges.width_spec(), cfg.edges.count_spec()) == Some(b),
    ensures
        0 <= b < cfg.edges.count_spec(),
{
    let w = cfg.edges.width_spec();
    let c = cfg.edges.count_spec();
    vstd::arithmetic::mul::lemma_mul_is_commutative(c, w);
    vstd::arithmetic::div_mod::lemma_multiply_divide_lt(SCALE as int, w, c);
    vstd::arithmetic::div_mod::lemma_div_pos_is_pos(SCALE as int, w);
}

} // verus!
