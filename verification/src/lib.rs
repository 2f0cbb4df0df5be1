//! The core of a per-sample dynamics processor (compressor/limiter).
//!
//! The library holds what is decided in whole numbers and truth values: the
//! countdown gate that times attack and release, the baselines it counts from,
//! the choice of gain treatment for each sample, and the choice of peak-meter
//! update for each processing call. Amplitudes pass through it untouched, as
//! values of any type. Comparing and computing with them is the caller's part:
//! it tells the engine whether a sample exceeds the threshold, and brings the
//! values of the compression and decay formulas along.

pub mod engine;
pub mod envelope;
pub mod gain;
pub mod gate_laws;
pub mod meter;
