//! Which error, if any, each risk measure returns for its input.
//!
//! Every check is stated as a spec function that reads like the rule, and
//! the executable check is proved to return exactly that.
use vstd::prelude::*;
use crate::error::RiskError;
use crate::ieee::{
    HALF, MINUS_ONE, ONE, SIGN_BIT, ZERO, is_finite, less_or_equal, less_than, spec_is_finite, spec_is_nan, spec_key, spec_le, spec_lt,
};

verus! {

/// Every observation is finite.
pub open spec fn all_finite(values: Seq<u64>) -> bool {
    forall|i: int| 0 <= i < values.len() ==> spec_is_finite(#[trigger] values[i])
}

/// Some observation is a loss of the whole position or worse (`value <= -1.0`).
pub open spec fn has_total_loss(values: Seq<u64>) -> bool {
    exists|i: int| 0 <= i < values.len() && spec_le(#[trigger] values[i], MINUS_ONE)
}

/// A return series must be nonempty and finite.
pub open spec fn returns_outcome(values: Seq<u64>) -> Result<(), RiskError> {
    if values.len() == 0 {
        Err(RiskError::EmptyInput)
    } else if !all_finite(values) {
        Err(RiskError::NonFiniteInput)
    } else {
        Ok(())
    }
}

/// A confidence level must be finite and lie in `[0.5, 1.0)`.
pub open spec fn confidence_outcome(confidence: u64) -> Result<(), RiskError> {
    if !spec_is_finite(confidence) || !(spec_le(HALF, confidence) && spec_lt(confidence, ONE)) {
        Err(RiskError::InvalidConfidence)
    } else {
        Ok(())
    }
}

/// A decay factor must be finite and lie in `[0.0, 1.0)`.
pub open spec fn decay_outcome(decay: u64) -> Result<(), RiskError> {
    if !spec_is_finite(decay) || !(spec_le(ZERO, decay) && spec_lt(decay, ONE)) {
        Err(RiskError::InvalidDecay)
    } else {
        Ok(())
    }
}

/// Historical VaR and expected shortfall check the returns, then the confidence.
pub open spec fn tail_outcome(series: Seq<u64>, confidence: u64) -> Result<(), RiskError> {
    if returns_outcome(series) is Err {
        returns_outcome(series)
    } else {
        confidence_outcome(confidence)
    }
}

/// Parametric VaR checks the confidence, then the returns.
pub open spec fn parametric_outcome(series: Seq<u64>, confidence: u64) -> Result<(), RiskError> {
    if confidence_outcome(confidence) is Err {
        confidence_outcome(confidence)
    } else {
        returns_outcome(series)
    }
}

/// EWMA volatility checks the returns, then the decay.
pub open spec fn ewma_outcome(series: Seq<u64>, decay: u64) -> Result<(), RiskError> {
    if returns_outcome(series) is Err {
        returns_outcome(series)
    } else {
        decay_outcome(decay)
    }
}

/// Drawdown checks the returns, then refuses any return of `-1.0` or below.
pub open spec fn drawdown_outcome(series: Seq<u64>) -> Result<(), RiskError> {
    if returns_outcome(series) is Err {
        returns_outcome(series)
    } else if has_total_loss(series) {
        Err(RiskError::InvalidReturn)
    } else {
        Ok(())
    }
}

/// Covariance checks each series, then that their lengths agree.
pub open spec fn covariance_outcome(left: Seq<u64>, right: Seq<u64>) -> Result<(), RiskError> {
    if returns_outcome(left) is Err {
        returns_outcome(left)
    } else if returns_outcome(right) is Err {
        returns_outcome(right)
    } else if left.len() != right.len() {
        Err(RiskError::LengthMismatch)
    } else {
        Ok(())
    }
}

/// Portfolio volatility needs weights, a square matrix of their size, and
/// finite numbers throughout (the matrix's own soundness is checked later).
pub open spec fn portfolio_outcome(weights: Seq<u64>, matrix: Seq<u64>) -> Result<(), RiskError> {
    if weights.len() == 0 {
        Err(RiskError::EmptyInput)
    } else if matrix.len() != weights.len() * weights.len() {
        Err(RiskError::LengthMismatch)
    } else if !all_finite(weights) || !all_finite(matrix) {
        Err(RiskError::NonFiniteInput)
    } else {
        Ok(())
    }
}

/// Whether every value is finite.
pub fn are_all_finite(values: &[u64]) -> (r: bool)
    ensures
        r == all_finite(values@),
{
    let n = values.len();
    for i in 0..n
        invariant
            n == values@.len(),
            forall|j: int| 0 <= j < i ==> spec_is_finite(#[trigger] values@[j]),
    {
        if !is_finite(values[i]) {
            return false;
        }
    }
    true
}

/// Refuses an empty or non-finite return series.
pub fn validate_returns(values: &[u64]) -> (r: Result<(), RiskError>)
    ensures
        r == returns_outcome(values@),
{
    if values.len() == 0 {
        return Err(RiskError::EmptyInput);
    }
    if !are_all_finite(values) {
        return Err(RiskError::NonFiniteInput);
    }
    Ok(())
}

/// Refuses a confidence level that is not finite or not in `[0.5, 1.0)`.
pub fn validate_confidence(confidence: u64) -> (r: Result<(), RiskError>)
    ensures
        r == confidence_outcome(confidence),
        r is Ok <==> HALF <= confidence < ONE,
{
    proof {
        lemma_confidence_accepted_exactly_in_range(confidence);
    }
    if !is_finite(confidence) || !(less_or_equal(HALF, confidence) && less_than(confidence, ONE)) {
        return Err(RiskError::InvalidConfidence);
    }
    Ok(())
}

/// Refuses a decay factor that is not finite or not in `[0.0, 1.0)`.
pub fn validate_decay(decay: u64) -> (r: Result<(), RiskError>)
    ensures
        r == decay_outcome(decay),
        r is Ok <==> (decay < ONE || decay == SIGN_BIT),
{
    proof {
        lemma_decay_accepted_exactly_in_range(decay);
    }
    if !is_finite(decay) || !(less_or_equal(ZERO, decay) && less_than(decay, ONE)) {
        return Err(RiskError::InvalidDecay);
    }
    Ok(())
}

/// Inputs of historical VaR and expected shortfall.
pub fn validate_tail_inputs(series: &[u64], confidence: u64) -> (r: Result<(), RiskError>)
    ensures
        r == tail_outcome(series@, confidence),
{
    validate_returns(series)?;
    validate_confidence(confidence)
}

/// Inputs of parametric VaR.
pub fn validate_parametric_inputs(series: &[u64], confidence: u64) -> (r: Result<(), RiskError>)
    ensures
        r == parametric_outcome(series@, confidence),
{
    validate_confidence(confidence)?;
    validate_returns(series)
}

/// Inputs of EWMA volatility.
pub fn validate_ewma_inputs(series: &[u64], decay: u64) -> (r: Result<(), RiskError>)
    ensures
        r == ewma_outcome(series@, decay),
{
    validate_returns(series)?;
    validate_decay(decay)
}

/// Inputs of maximum drawdown: a valid series with no return at or below `-1.0`.
pub fn validate_drawdown_returns(series: &[u64]) -> (r: Result<(), RiskError>)
    ensures
        r == drawdown_outcome(series@),
        r is Ok ==> forall|i: int|
            0 <= i < series@.len() ==> spec_key(MINUS_ONE) < spec_key(#[trigger] series@[i]),
{
    proof {
        if series@.len() > 0 && all_finite(series@) {
            lemma_drawdown_refuses_only_total_losses(series@);
        }
    }
    validate_returns(series)?;
    let n = series.len();
    for i in 0..n
        invariant
            n == series@.len(),
            returns_outcome(series@) is Ok,
            forall|j: int| 0 <= j < i ==> !spec_le(#[trigger] series@[j], MINUS_ONE),
    {
        if less_or_equal(series[i], MINUS_ONE) {
            assert(spec_le(series@[i as int], MINUS_ONE));
            return Err(RiskError::InvalidReturn);
        }
    }
    Ok(())
}

/// Inputs of covariance.
pub fn validate_covariance_inputs(left: &[u64], right: &[u64]) -> (r: Result<(), RiskError>)
    ensures
        r == covariance_outcome(left@, right@),
        r is Ok ==> left@.len() == right@.len(),
{
    proof {
        lemma_covariance_needs_equal_lengths(left@, right@);
    }
    validate_returns(left)?;
    validate_returns(right)?;
    if left.len() != right.len() {
        return Err(RiskError::LengthMismatch);
    }
    Ok(())
}

/// Inputs of portfolio volatility, up to the soundness of the matrix itself.
pub fn validate_portfolio_inputs(weights: &[u64], matrix: &[u64]) -> (r: Result<(), RiskError>)
    ensures
        r == portfolio_outcome(weights@, matrix@),
        r is Ok <==> (weights@.len() > 0 && matrix@.len() == weights@.len() * weights@.len()
            && (forall|i: int| 0 <= i < weights@.len() ==> spec_is_finite(#[trigger] weights@[i]))
            && (forall|i: int| 0 <= i < matrix@.len() ==> spec_is_finite(#[trigger] matrix@[i]))),
{
    proof {
        lemma_portfolio_accepts_finite_square_inputs(weights@, matrix@);
    }
    let n = weights.len();
    if n == 0 {
        return Err(RiskError::EmptyInput);
    }
    let cells = matrix.len();
    match n.checked_mul(n) {
        Some(square) => {
            if cells != square {
                return Err(RiskError::LengthMismatch);
            }
        },
        None => {
            // No matrix has more cells than `usize` can count.
            return Err(RiskError::LengthMismatch);
        },
    }
    if !are_all_finite(weights) || !are_all_finite(matrix) {
        return Err(RiskError::NonFiniteInput);
    }
    Ok(())
}

/// Every risk measure refuses an empty return series (or an empty weight
/// vector); all but parametric VaR, which looks at its confidence level
/// first, say so with `EmptyInput`.
pub proof fn lemma_empty_input_is_refused(other: Seq<u64>, matrix: Seq<u64>, level: u64)
    ensures
        returns_outcome(Seq::empty()) == Err::<(), RiskError>(RiskError::EmptyInput),
        tail_outcome(Seq::empty(), level) == Err::<(), RiskError>(RiskError::EmptyInput),
        parametric_outcome(Seq::empty(), level) is Err,
        confidence_outcome(level) is Ok ==> parametric_outcome(Seq::empty(), level) == Err::<
            (),
            RiskError,
        >(RiskError::EmptyInput),
        ewma_outcome(Seq::empty(), level) == Err::<(), RiskError>(RiskError::EmptyInput),
        drawdown_outcome(Seq::empty()) == Err::<(), RiskError>(RiskError::EmptyInput),
        covariance_outcome(Seq::empty(), other) == Err::<(), RiskError>(RiskError::EmptyInput),
        covariance_outcome(other, Seq::empty()) is Err,
        portfolio_outcome(Seq::empty(), matrix) == Err::<(), RiskError>(RiskError::EmptyInput),
{
}

/// Every risk measure refuses a series that holds a non-finite observation.
pub proof fn lemma_non_finite_input_is_refused(
    series: Seq<u64>,
    other: Seq<u64>,
    matrix: Seq<u64>,
    level: u64,
    i: int,
)
    requires
        0 <= i < series.len(),
        !spec_is_finite(series[i]),
    ensures
        returns_outcome(series) == Err::<(), RiskError>(RiskError::NonFiniteInput),
        tail_outcome(series, level) == Err::<(), RiskError>(RiskError::NonFiniteInput),
        parametric_outcome(series, level) is Err,
        ewma_outcome(series, level) == Err::<(), RiskError>(RiskError::NonFiniteInput),
        drawdown_outcome(series) == Err::<(), RiskError>(RiskError::NonFiniteInput),
        covariance_outcome(series, other) == Err::<(), RiskError>(RiskError::NonFiniteInput),
        covariance_outcome(other, series) is Err,
        portfolio_outcome(series, matrix) is Err,
        portfolio_outcome(other, series) is Err,
{
}

/// The measures that take a confidence level refuse one outside `[0.5, 1.0)`
/// or not finite; with valid returns the error is `InvalidConfidence`.
pub proof fn lemma_invalid_confidence_is_refused(series: Seq<u64>, level: u64)
    requires
        confidence_outcome(level) is Err,
    ensures
        tail_outcome(series, level) is Err,
        parametric_outcome(series, level) == Err::<(), RiskError>(RiskError::InvalidConfidence),
        returns_outcome(series) is Ok ==> tail_outcome(series, level) == Err::<(), RiskError>(
            RiskError::InvalidConfidence,
        ),
{
}

/// Portfolio volatility refuses a matrix that is not square in the number
/// of weights.
pub proof fn lemma_misshapen_matrix_is_refused(weights: Seq<u64>, matrix: Seq<u64>)
    requires
        matrix.len() != weights.len() * weights.len(),
    ensures
        portfolio_outcome(weights, matrix) is Err,
        weights.len() > 0 ==> portfolio_outcome(weights, matrix) == Err::<(), RiskError>(
            RiskError::LengthMismatch,
        ),
{
}

/// Covariance pairs observations one for one: its inputs are accepted only
/// when both series have the same length, and two valid series of different
/// lengths, in either order, earn `LengthMismatch`.
pub proof fn lemma_covariance_needs_equal_lengths(left: Seq<u64>, right: Seq<u64>)
    ensures
        covariance_outcome(left, right) is Ok ==> left.len() == right.len(),
        covariance_outcome(left, right) is Ok <==> (left.len() > 0 && right.len() > 0
            && left.len() == right.len() && (forall|i: int|
            0 <= i < left.len() ==> spec_is_finite(#[trigger] left[i])) && (forall|i: int|
            0 <= i < right.len() ==> spec_is_finite(#[trigger] right[i]))),
        (left.len() > 0 && right.len() > 0 && (forall|i: int|
            0 <= i < left.len() ==> spec_is_finite(#[trigger] left[i])) && (forall|i: int|
            0 <= i < right.len() ==> spec_is_finite(#[trigger] right[i])) && left.len()
            != right.len()) ==> covariance_outcome(left, right) == Err::<(), RiskError>(
            RiskError::LengthMismatch,
        ),
{
}

/// The portfolio input check accepts exactly nonempty weights with a matrix
/// of `weights.len()` squared cells, every number finite; the sign of a
/// matrix entry plays no part (negative covariances are ordinary).
pub proof fn lemma_portfolio_accepts_finite_square_inputs(weights: Seq<u64>, matrix: Seq<u64>)
    ensures
        portfolio_outcome(weights, matrix) is Ok <==> (weights.len() > 0 && matrix.len()
            == weights.len() * weights.len() && (forall|i: int|
            0 <= i < weights.len() ==> spec_is_finite(#[trigger] weights[i])) && (forall|i: int|
            0 <= i < matrix.len() ==> spec_is_finite(#[trigger] matrix[i]))),
        portfolio_outcome(weights, matrix) is Ok || portfolio_outcome(weights, matrix)
            == Err::<(), RiskError>(RiskError::EmptyInput) || portfolio_outcome(weights, matrix)
            == Err::<(), RiskError>(RiskError::LengthMismatch) || portfolio_outcome(
            weights,
            matrix,
        ) == Err::<(), RiskError>(RiskError::NonFiniteInput),
{
}

/// Drawdown refuses a valid series exactly when some return is at or below
/// `-1.0`; every valid series of returns above `-1.0` (gains of any size
/// included) is accepted.
pub proof fn lemma_drawdown_refuses_only_total_losses(series: Seq<u64>)
    requires
        series.len() > 0,
        forall|i: int| 0 <= i < series.len() ==> spec_is_finite(#[trigger] series[i]),
    ensures
        drawdown_outcome(series) is Ok <==> (forall|i: int|
            0 <= i < series.len() ==> spec_key(MINUS_ONE) < spec_key(#[trigger] series[i])),
        drawdown_outcome(series) is Err ==> drawdown_outcome(series) == Err::<(), RiskError>(
            RiskError::InvalidReturn,
        ),
        (exists|i: int|
            0 <= i < series.len() && spec_key(#[trigger] series[i]) <= spec_key(MINUS_ONE))
            ==> drawdown_outcome(series) == Err::<(), RiskError>(RiskError::InvalidReturn),
{
    assert forall|i: int| 0 <= i < series.len() implies !spec_is_nan(#[trigger] series[i]) by {
        assert(spec_is_finite(series[i]));
    }
}

/// The accepted confidence levels are exactly the finite numbers in
/// `[0.5, 1.0)`; as encodings, exactly the bit patterns from that of `0.5`
/// up to, not including, that of `1.0`. Anything at or above `1.0`, such as
/// a percentage, is refused.
pub proof fn lemma_confidence_accepted_exactly_in_range(level: u64)
    ensures
        confidence_outcome(level) is Ok <==> (spec_key(HALF) <= spec_key(level) < spec_key(ONE)
            && !spec_is_nan(level)),
        confidence_outcome(level) is Ok <==> (HALF <= level < ONE),
        confidence_outcome(level) is Err ==> confidence_outcome(level) == Err::<(), RiskError>(
            RiskError::InvalidConfidence,
        ),
{
}

/// The accepted decay factors are exactly the finite numbers in `[0.0, 1.0)`;
/// as encodings, the bit patterns below that of `1.0`, and `-0.0`, which
/// equals `0.0`. Anything at or above `1.0`, such as a percentage, is refused.
pub proof fn lemma_decay_accepted_exactly_in_range(decay: u64)
    ensures
        decay_outcome(decay) is Ok <==> (spec_key(ZERO) <= spec_key(decay) < spec_key(ONE)
            && !spec_is_nan(decay)),
        decay_outcome(decay) is Ok <==> (decay < ONE || decay == SIGN_BIT),
        decay_outcome(decay) is Err ==> decay_outcome(decay) == Err::<(), RiskError>(
            RiskError::InvalidDecay,
        ),
{
}

/// A return series is accepted exactly when it is nonempty and every
/// observation is finite; the measures built on it accept exactly such a
/// series together with a level in range.
pub proof fn lemma_valid_series_accepted(series: Seq<u64>, level: u64)
    ensures
        returns_outcome(series) is Ok <==> (series.len() > 0 && forall|i: int|
            0 <= i < series.len() ==> spec_is_finite(#[trigger] series[i])),
        tail_outcome(series, level) is Ok <==> (returns_outcome(series) is Ok && HALF <= level
            < ONE),
        parametric_outcome(series, level) is Ok <==> (returns_outcome(series) is Ok && HALF
            <= level < ONE),
        ewma_outcome(series, level) is Ok <==> (returns_outcome(series) is Ok && (level < ONE
            || level == SIGN_BIT)),
{
    lemma_confidence_accepted_exactly_in_range(level);
    lemma_decay_accepted_exactly_in_range(level);
}

} // verus!
