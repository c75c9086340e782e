use vstd::prelude::*;

verus! {

/// Why a risk computation refused its input.
#[derive(Debug, Clone, Copy, PartialEq, Eq, Structural)]
pub enum RiskError {
    /// A series (or the weight vector) has no observations.
    EmptyInput,
    /// An observation is infinite or NaN.
    NonFiniteInput,
    /// The confidence level is not finite or not in `[0.5, 1.0)`.
    InvalidConfidence,
    /// The decay factor is not finite or not in `[0.0, 1.0)`.
    InvalidDecay,
    /// A periodic return is `-1.0` or below.
    InvalidReturn,
    /// Two series, or weights and matrix, do not fit together.
    LengthMismatch,
    /// The matrix is not symmetric positive semidefinite within tolerance.
    InvalidCovarianceMatrix,
}

} // verus!
