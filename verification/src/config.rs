//! The validated, immutable configuration of one simulation run.
//!
//! The distribution parameters (means and standard deviations, in scaled
//! units) describe where the per-day draws come from; the simulation core
//! itself only consumes the draws, so the parameters are carried for
//! whoever produces them. Validation happens once, at construction: a
//! non-positive standard deviation or a zero trial count is rejected
//! before any trial runs.

use vstd::prelude::*;
use crate::histogram::BucketEdges;

verus! {

/// Mean and standard deviation of a normal distribution, in scaled units.
#[derive(Clone, Copy, Debug, PartialEq, Eq, Structural)]
pub struct NormalParams {
    pub mean: i64,
    pub std_dev: i64,
}

impl NormalParams {
    /// A distribution is well-formed iff its standard deviation is positive.
    pub open spec fn wf(&self) -> bool {
        self.std_dev > 0
    }
}

/// Why a configuration was rejected.
#[derive(Clone, Copy, Debug, PartialEq, Eq, Structural)]
pub enum ConfigError {
    /// A distribution's standard deviation is not positive.
    NonPositiveStdDev,
    /// The trial count is zero.
    ZeroTrials,
}

/// The parameters of one simulation run, shared read-only by every trial.
#[derive(Clone, Copy, Debug)]
pub struct SimulationConfig {
    pub sims: usize,
    pub steps: usize,
    pub signal: NormalParams,
    pub signal_threshold: i64,
    pub normal_volatility: NormalParams,
    pub high_volatility: NormalParams,
    pub edges: BucketEdges,
    pub play_on_high_volatility: bool,
}

impl SimulationConfig {
    pub open spec fn wf(&self) -> bool {
        &&& self.sims >= 1
        &&& self.signal.wf()
        &&& self.normal_volatility.wf()
        &&& self.high_volatility.wf()
        &&& self.edges.wf()
    }

    /// Validates and builds a configuration: every standard deviation must
    /// be positive and the trial count must be positive.
    pub fn new(
        sims: usize,
        steps: usize,
        signal: NormalParams,
        signal_threshold: i64,
        normal_volatility: NormalParams,
        high_volatility: NormalParams,
        edges: BucketEdges,
        play_on_high_volatility: bool,
    ) -> (r: Result<SimulationConfig, ConfigError>)
        requires
            edges.wf(),
        ensures
            match r {
                Ok(c) => {
                    &&& c.wf()
                    &&& c.sims == sims
                    &&& c.steps == steps
                    &&& c.signal == signal
                    &&& c.signal_threshold == signal_threshold
                    &&& c.normal_volatility == normal_volatility
                    &&& c.high_volatility == high_volatility
                    &&& c.edges == edges
                    &&& c.play_on_high_volatility == play_on_high_volatility
                },
                Err(e) => {
                    &&& !(signal.wf() && normal_volatility.wf() && high_volatility.wf() && sims
                        >= 1)
                    &&& e == (if !(signal.wf() && normal_volatility.wf() && high_volatility.wf()) {
                        ConfigError::NonPositiveStdDev
                    } else {
                        ConfigError::ZeroTrials
                    })
                },
            },
    {
        if signal.std_dev <= 0 || normal_volatility.std_dev <= 0 || high_volatility.std_dev <= 0 {
            Err(ConfigError::NonPositiveStdDev)
        } else if sims == 0 {
            Err(ConfigError::ZeroTrials)
        } else {
            Ok(
                SimulationConfig {
                    sims,
                    steps,
                    signal,
                    signal_threshold,
                    normal_volatility,
                    high_volatility,
                    edges,
                    play_on_high_volatility,
                },
            )
        }
    }
}

} // verus!
