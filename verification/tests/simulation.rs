use trialsim::config::{ConfigError, NormalParams, SimulationConfig};
use trialsim::histogram::{BucketEdges, aggregate};
use trialsim::regime::{DayOutcome, VolatilityKind, day_outcome, is_high_volatility_day, volatility_kind};
use trialsim::scenario::{compare_scenarios, run_pipeline};
use trialsim::trial::{TrialDraws, run_trial, run_trials};
use trialsim::value::{SCALE, apply_factor, day_factor};

fn edges(width: u64, count: usize) -> BucketEdges {
    BucketEdges::new(width, count).expect("valid edges")
}

#[test]
fn high_volatility_schedule() {
    for day in [20usize, 50, 80, 110, 290] {
        assert!(is_high_volatility_day(day), "day {day} should be flagged");
    }
    for day in [0usize, 19, 21, 29, 30, 49, 51, 79, 81, 100] {
        assert!(!is_high_volatility_day(day), "day {day} should not be flagged");
    }
}

#[test]
fn volatility_kind_selects_regime() {
    assert_eq!(volatility_kind(20, true), VolatilityKind::High);
    assert_eq!(volatility_kind(20, false), VolatilityKind::Skip);
    assert_eq!(volatility_kind(3, true), VolatilityKind::Normal);
    assert_eq!(volatility_kind(3, false), VolatilityKind::Normal);
}

#[test]
fn day_outcome_abstains_on_flagged_day() {
    assert_eq!(day_outcome(50, false, 5_000, 1_000_000, 0), DayOutcome::Abstain);
    assert_eq!(day_outcome(50, false, 5_000, -1_000_000, 0), DayOutcome::Abstain);
}

#[test]
fn day_outcome_holds_at_or_below_threshold() {
    assert_eq!(day_outcome(0, true, 5_000, 5_000, 7), DayOutcome::Hold);
    assert_eq!(day_outcome(7, true, 5_000, -20_000, 7), DayOutcome::Hold);
}

#[test]
fn day_outcome_applies_above_threshold() {
    assert_eq!(
        day_outcome(0, true, 5_000, 10_000, 2_000),
        DayOutcome::Apply { factor: 1_012_000 },
    );
    // on a flagged day the risk-taking policy still trades
    assert_eq!(
        day_outcome(20, true, 5_000, 10_000, -3_000),
        DayOutcome::Apply { factor: 1_007_000 },
    );
}

#[test]
fn day_factor_saturates() {
    assert_eq!(day_factor(0, 0), SCALE);
    assert_eq!(day_factor(i64::MAX, i64::MAX), i64::MAX);
    assert_eq!(day_factor(i64::MIN, -2_000_000), i64::MIN);
    assert_eq!(day_factor(i64::MIN, 0), i64::MIN + SCALE);
}

#[test]
fn apply_factor_exact_values() {
    assert_eq!(apply_factor(1_000_000, 2_000_000), 2_000_000);
    assert_eq!(apply_factor(1_500_000, 1_100_000), 1_650_000);
    // the quotient is floored
    assert_eq!(apply_factor(1, 1), 0);
    assert_eq!(apply_factor(999_999, 1_000_001), 999_999);
}

#[test]
fn apply_factor_nonpositive_factor_floors_at_zero() {
    assert_eq!(apply_factor(5_000_000, 0), 0);
    assert_eq!(apply_factor(5_000_000, -3), 0);
}

#[test]
fn apply_factor_saturates() {
    assert_eq!(apply_factor(u64::MAX, i64::MAX), u64::MAX);
}

#[test]
fn zero_steps_terminal_is_one() {
    let none: Vec<i64> = Vec::new();
    assert_eq!(run_trial(true, 5_000, 0, &none, &none), SCALE as u64);
    assert_eq!(run_trial(false, -7_000, 0, &none, &none), SCALE as u64);
}

#[test]
fn below_threshold_terminal_is_one() {
    let steps = 10;
    let signals = vec![4_999i64; steps];
    let vols = vec![123_456i64; steps];
    assert_eq!(run_trial(true, 5_000, steps, &signals, &vols), SCALE as u64);
    assert_eq!(run_trial(false, 5_000, steps, &signals, &vols), SCALE as u64);
}

#[test]
fn constant_signal_compounds_exactly() {
    // day factor 1 + 1.0 + 0.0 == 2.0: the terminal value is 2^steps
    let steps = 3;
    let signals = vec![SCALE; steps];
    let vols = vec![0i64; steps];
    assert_eq!(run_trial(true, 900_000, steps, &signals, &vols), 8 * SCALE as u64);
}

#[test]
fn abstain_skips_flagged_day() {
    // 21 days of factor 2.0; day 20 is flagged
    let steps = 21;
    let signals = vec![SCALE; steps];
    let vols = vec![0i64; steps];
    let risk = run_trial(true, 900_000, steps, &signals, &vols);
    let safe = run_trial(false, 900_000, steps, &signals, &vols);
    assert_eq!(risk, (1u64 << 21) * SCALE as u64);
    assert_eq!(safe, (1u64 << 20) * SCALE as u64);
}

#[test]
fn bucket_edges_cover_half_open_intervals() {
    let e = edges(100_000, 50);
    assert_eq!(e.width(), 100_000);
    assert_eq!(e.count(), 50);
    for i in 0..50 {
        assert_eq!(e.low_edge(i), 100_000 * i as u64);
    }
    assert_eq!(e.bucket_index(0), Some(0));
    assert_eq!(e.bucket_index(99_999), Some(0));
    assert_eq!(e.bucket_index(100_000), Some(1));
    assert_eq!(e.bucket_index(4_999_999), Some(49));
    // at or above the domain's upper bound: no bucket
    assert_eq!(e.bucket_index(5_000_000), None);
    assert_eq!(e.bucket_index(u64::MAX), None);
}

#[test]
fn bucket_edges_reject_invalid_shapes() {
    assert!(BucketEdges::new(0, 5).is_none());
    assert!(BucketEdges::new(5, 0).is_none());
    assert!(BucketEdges::new(u64::MAX, 2).is_none());
    assert!(BucketEdges::new(u64::MAX, 1).is_some());
}

#[test]
fn aggregate_counts_and_drops_out_of_domain() {
    let e = edges(10, 3);
    let outcomes: Vec<u64> = vec![0, 9, 10, 29, 30, 35];
    let h = aggregate(&outcomes, &e);
    assert_eq!(h.counts, vec![2, 1, 1]);
    // two outcomes fell outside [0, 30): the sum undercounts the trials
    assert_eq!(h.counts.iter().sum::<usize>(), 4);

    let inside: Vec<u64> = vec![5, 15, 25];
    let h2 = aggregate(&inside, &e);
    assert_eq!(h2.counts, vec![1, 1, 1]);
    assert_eq!(h2.counts.iter().sum::<usize>(), inside.len());
}

#[test]
fn run_trials_yields_one_terminal_per_trial() {
    let trials = vec![
        TrialDraws { signals: vec![SCALE], vols: vec![0] },
        TrialDraws { signals: vec![0], vols: vec![0] },
        TrialDraws { signals: vec![SCALE], vols: vec![SCALE] },
    ];
    let out = run_trials(true, 900_000, 1, &trials);
    assert_eq!(out, vec![2_000_000, 1_000_000, 3_000_000]);
}

fn quiet_config(sims: usize, play: bool) -> SimulationConfig {
    SimulationConfig::new(
        sims,
        0,
        NormalParams { mean: 0, std_dev: 10_000 },
        5_000,
        NormalParams { mean: 0, std_dev: 10_000 },
        NormalParams { mean: 0, std_dev: 50_000 },
        edges(100_000, 50),
        play,
    )
    .expect("valid configuration")
}

#[test]
fn zero_step_scenarios_concentrate_in_base_bucket() {
    let sims = 1000;
    let cfg = quiet_config(sims, true);
    let trials_risk: Vec<TrialDraws> = (0..sims)
        .map(|_| TrialDraws { signals: Vec::new(), vols: Vec::new() })
        .collect();
    let trials_safe: Vec<TrialDraws> = (0..sims)
        .map(|_| TrialDraws { signals: Vec::new(), vols: Vec::new() })
        .collect();
    let (risk, safe) = compare_scenarios(&cfg, &trials_risk, &trials_safe);
    assert_eq!(risk.label, "risk");
    assert_eq!(safe.label, "safe");
    for result in [&risk, &safe] {
        let counts = &result.histogram.counts;
        assert_eq!(counts.len(), 50);
        // 1.0 lies in bucket 10 of width 0.1
        assert_eq!(counts[10], sims);
        assert_eq!(counts.iter().sum::<usize>(), sims);
        for (b, c) in counts.iter().enumerate() {
            if b != 10 {
                assert_eq!(*c, 0);
            }
        }
    }
}

#[test]
fn pipeline_matches_expected_buckets() {
    let mut cfg = quiet_config(2, true);
    cfg.steps = 1;
    cfg.signal_threshold = 900_000;
    let trials = vec![
        TrialDraws { signals: vec![SCALE], vols: vec![0] },
        TrialDraws { signals: vec![0], vols: vec![0] },
    ];
    let h = run_pipeline(&cfg, &trials);
    // terminals 2.0 and 1.0: buckets 20 and 10 of width 0.1
    assert_eq!(h.counts[20], 1);
    assert_eq!(h.counts[10], 1);
    assert_eq!(h.counts.iter().sum::<usize>(), 2);
}

#[test]
fn config_rejects_bad_parameters() {
    let good = NormalParams { mean: 0, std_dev: 10_000 };
    let bad = NormalParams { mean: 0, std_dev: 0 };
    let e = edges(100_000, 50);
    assert!(SimulationConfig::new(10, 5, good, 0, good, good, e, true).is_ok());
    assert_eq!(
        SimulationConfig::new(10, 5, bad, 0, good, good, e, true).unwrap_err(),
        ConfigError::NonPositiveStdDev,
    );
    assert_eq!(
        SimulationConfig::new(10, 5, good, 0, bad, good, e, false).unwrap_err(),
        ConfigError::NonPositiveStdDev,
    );
    assert_eq!(
        SimulationConfig::new(10, 5, good, 0, good, bad, e, false).unwrap_err(),
        ConfigError::NonPositiveStdDev,
    );
    assert_eq!(
        SimulationConfig::new(0, 5, good, 0, good, good, e, true).unwrap_err(),
        ConfigError::ZeroTrials,
    );
}

#[test]
fn aggregation_merges_across_partitions() {
    let e = edges(10, 3);
    let first: Vec<u64> = vec![1, 11, 21];
    let second: Vec<u64> = vec![2, 29, 35];
    let whole: Vec<u64> = first.iter().chain(second.iter()).copied().collect();
    let h_first = aggregate(&first, &e);
    let h_second = aggregate(&second, &e);
    let h_whole = aggregate(&whole, &e);
    for b in 0..3 {
        assert_eq!(h_whole.counts[b], h_first.counts[b] + h_second.counts[b]);
    }
}
