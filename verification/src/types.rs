use vstd::prelude::*;

verus! {

/// The canonical smoothing and lookback window size for both indicators.
/// Each engine takes the period as an explicit argument; callers that want
/// the textbook behaviour pass this value.
pub const DEFAULT_PERIOD: usize = 14;

/// An exact rational number: the value `num / den`.
///
/// Indicator values are reported as exact ratios of integers rather than
/// rounded machine numbers, so every contract can pin a result down to the
/// last digit. A value produced by this crate never has `den == 0`: a window
/// whose denominator collapses to zero is reported as
/// `IndicatorError::DegenerateWindow` instead.
#[derive(Clone, Copy, Debug, PartialEq, Eq, Structural)]
pub struct Ratio {
    pub num: i128,
    pub den: i128,
}

/// One trading session: closing price, session low and session high, all in
/// integer price ticks on whatever scale the caller chose (cents, pips, ...).
///
/// The indicators expect `low <= close <= high` but, like any range scan,
/// still run without it; only the bounds guarantees rely on it.
#[derive(Clone, Copy, Debug, PartialEq, Eq, Structural)]
pub struct OhlcSample {
    pub close: i64,
    pub low: i64,
    pub high: i64,
}

/// Why an indicator run returned no output sequence.
///
/// A run either returns the whole output sequence or a single error; no
/// partial results are ever handed back.
#[derive(Clone, Copy, Debug, PartialEq, Eq, Structural)]
pub enum IndicatorError {
    /// Fewer input entries than the indicator's window needs.
    InsufficientData { received: usize, required: usize },
    /// The exact value at output position `index` has denominator zero: an
    /// all-flat smoothing window (RSI) or a flat high/low range (%K).
    DegenerateWindow { index: usize },
    /// An exact intermediate value no longer fits in an `i128`.
    ValueTooLarge,
}

} // verus!
