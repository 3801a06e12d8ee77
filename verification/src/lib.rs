//! Backtesting core for candle-based trading strategies.
//!
//! The engine consumes an immutable, time-ordered series of OHLC candles,
//! detects entry signals (sweep-reversal and session-range-breakout), runs a
//! single simulated position forward to its stop or target, and collects the
//! finished trades. Prices are exact: every price is an integer count of a
//! fixed decimal quantum chosen by the caller, and risk:reward ratios are
//! exact rationals.

pub mod model;
pub mod strategies;
pub mod time;
