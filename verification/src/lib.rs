//! Momentum indicators over integer price ticks, computed in exact arithmetic.
//!
//! Two engines are provided: the Relative Strength Index (`rsi`) and the
//! Stochastic Oscillator %K (`stochastic_oscillator`). Each takes a
//! chronological series of prices in integer ticks and returns one exact
//! rational value per valid window position. Both indicators depend only on
//! ratios of price differences, so the tick scale a caller chooses never
//! affects a result.

pub mod rsi;
pub mod stochastic_oscillator;
pub mod types;
