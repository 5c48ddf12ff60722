use vstd::prelude::*;

verus! {

/// Why an indicator call was rejected before any computation took place.
#[derive(Clone, Copy, Debug, PartialEq, Eq, Structural)]
pub enum IndicatorError {
    /// The input series holds no sample.
    EmptyInput,
    /// The window size is zero, or larger than the series it slides over.
    InvalidPeriod,
    /// A scalar parameter is outside the range the indicator accepts.
    InvalidParameter,
    /// Parallel series of one bar sequence differ in length.
    MismatchedLengths,
    /// The series is not empty, yet too short for the indicator to start.
    InsufficientData,
}

} // verus!
