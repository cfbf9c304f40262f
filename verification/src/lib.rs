//! Monte-Carlo simulation of a repeated-trial trading strategy.
//!
//! A trial compounds a running portfolio value day by day: each day a signal
//! draw gates whether a return is applied, and a periodic high-volatility
//! regime either widens the volatility draw or (under the cautious policy)
//! keeps the strategy out of the market. Terminal values of many independent
//! trials are aggregated into a fixed-width histogram, and two policy
//! variants are compared over the same bucket edges.
//!
//! All quantities are fixed-point numbers counted in units of `1 / SCALE`
//! (see [`value::SCALE`]); the notional starting value `1.0` is `SCALE`
//! units.

pub mod config;
pub mod histogram;
pub mod regime;
pub mod scenario;
pub mod trial;
pub mod value;
