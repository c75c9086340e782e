use riskcore::error::RiskError;
use riskcore::validation::{
    validate_confidence, validate_covariance_inputs, validate_decay, validate_drawdown_returns,
    validate_ewma_inputs, validate_parametric_inputs, validate_portfolio_inputs, validate_returns,
    validate_tail_inputs,
};

const RETURNS: [f64; 10] = [
    0.012, -0.018, 0.004, -0.031, 0.009, -0.006, 0.015, -0.024, 0.011, -0.008,
];

fn bits(values: &[f64]) -> Vec<u64> {
    values.iter().map(|v| v.to_bits()).collect()
}

#[test]
fn returns_must_be_nonempty_and_finite() {
    assert_eq!(validate_returns(&[]), Err(RiskError::EmptyInput));
    assert_eq!(validate_returns(&bits(&[0.01, f64::NAN])), Err(RiskError::NonFiniteInput));
    assert_eq!(validate_returns(&bits(&[f64::INFINITY])), Err(RiskError::NonFiniteInput));
    assert_eq!(validate_returns(&bits(&[f64::NEG_INFINITY, 0.0])), Err(RiskError::NonFiniteInput));
    assert_eq!(validate_returns(&bits(&RETURNS)), Ok(()));
    assert_eq!(validate_returns(&bits(&[f64::MAX, f64::MIN, -0.0])), Ok(()));
}

#[test]
fn confidence_lies_in_half_open_interval() {
    assert_eq!(validate_confidence(0.95f64.to_bits()), Ok(()));
    assert_eq!(validate_confidence(0.5f64.to_bits()), Ok(()));
    assert_eq!(validate_confidence(0.999_999f64.to_bits()), Ok(()));
    assert_eq!(validate_confidence(1.0f64.to_bits()), Err(RiskError::InvalidConfidence));
    assert_eq!(validate_confidence(0.499_999f64.to_bits()), Err(RiskError::InvalidConfidence));
    assert_eq!(validate_confidence((-0.95f64).to_bits()), Err(RiskError::InvalidConfidence));
    assert_eq!(validate_confidence(f64::NAN.to_bits()), Err(RiskError::InvalidConfidence));
    assert_eq!(validate_confidence(f64::INFINITY.to_bits()), Err(RiskError::InvalidConfidence));
    assert_eq!(validate_confidence(0.0f64.to_bits()), Err(RiskError::InvalidConfidence));
}

#[test]
fn decay_lies_in_half_open_unit_interval() {
    assert_eq!(validate_decay(0.94f64.to_bits()), Ok(()));
    assert_eq!(validate_decay(0.0f64.to_bits()), Ok(()));
    // -0.0 compares equal to 0.0, so it is inside [0.0, 1.0).
    assert_eq!(validate_decay((-0.0f64).to_bits()), Ok(()));
    assert_eq!(validate_decay(1.0f64.to_bits()), Err(RiskError::InvalidDecay));
    assert_eq!(validate_decay((-0.1f64).to_bits()), Err(RiskError::InvalidDecay));
    assert_eq!(validate_decay(f64::NAN.to_bits()), Err(RiskError::InvalidDecay));
    assert_eq!(validate_decay(f64::NEG_INFINITY.to_bits()), Err(RiskError::InvalidDecay));
}

#[test]
fn tail_measures_check_returns_before_confidence() {
    assert_eq!(validate_tail_inputs(&[], 0.95f64.to_bits()), Err(RiskError::EmptyInput));
    assert_eq!(
        validate_tail_inputs(&bits(&RETURNS), 1.0f64.to_bits()),
        Err(RiskError::InvalidConfidence)
    );
    assert_eq!(validate_tail_inputs(&[], 1.0f64.to_bits()), Err(RiskError::EmptyInput));
    assert_eq!(validate_tail_inputs(&bits(&RETURNS), 0.99f64.to_bits()), Ok(()));
}

#[test]
fn parametric_var_checks_confidence_first() {
    assert_eq!(validate_parametric_inputs(&[], 1.0f64.to_bits()), Err(RiskError::InvalidConfidence));
    assert_eq!(validate_parametric_inputs(&[], 0.95f64.to_bits()), Err(RiskError::EmptyInput));
    assert_eq!(
        validate_parametric_inputs(&bits(&[f64::NAN]), 0.95f64.to_bits()),
        Err(RiskError::NonFiniteInput)
    );
    assert_eq!(validate_parametric_inputs(&bits(&RETURNS), 0.95f64.to_bits()), Ok(()));
}

#[test]
fn ewma_checks_returns_then_decay() {
    assert_eq!(validate_ewma_inputs(&[], 2.0f64.to_bits()), Err(RiskError::EmptyInput));
    assert_eq!(validate_ewma_inputs(&bits(&RETURNS), 1.0f64.to_bits()), Err(RiskError::InvalidDecay));
    assert_eq!(validate_ewma_inputs(&bits(&RETURNS), 0.94f64.to_bits()), Ok(()));
}

#[test]
fn drawdown_refuses_total_losses() {
    assert_eq!(validate_drawdown_returns(&bits(&[-1.0])), Err(RiskError::InvalidReturn));
    assert_eq!(validate_drawdown_returns(&bits(&[0.1, -1.5, 0.2])), Err(RiskError::InvalidReturn));
    assert_eq!(validate_drawdown_returns(&bits(&[-0.999_999, 0.5])), Ok(()));
    assert_eq!(validate_drawdown_returns(&bits(&[-1.0, f64::NAN])), Err(RiskError::NonFiniteInput));
    assert_eq!(validate_drawdown_returns(&[]), Err(RiskError::EmptyInput));
    assert_eq!(validate_drawdown_returns(&bits(&RETURNS)), Ok(()));
}

#[test]
fn covariance_checks_each_series_then_lengths() {
    assert_eq!(validate_covariance_inputs(&bits(&[1.0, 2.0, 3.0]), &bits(&[2.0, 4.0, 6.0])), Ok(()));
    assert_eq!(
        validate_covariance_inputs(&bits(&[1.0, 2.0]), &bits(&[2.0, 4.0, 6.0])),
        Err(RiskError::LengthMismatch)
    );
    assert_eq!(validate_covariance_inputs(&[], &bits(&[f64::NAN])), Err(RiskError::EmptyInput));
    assert_eq!(
        validate_covariance_inputs(&bits(&[1.0]), &bits(&[f64::NAN, 1.0])),
        Err(RiskError::NonFiniteInput)
    );
}

#[test]
fn portfolio_inputs_are_checked_in_order() {
    let weights = bits(&[0.5, 0.5]);
    assert_eq!(
        validate_portfolio_inputs(&weights, &bits(&[0.04, f64::NAN, f64::NAN, 0.03])),
        Err(RiskError::NonFiniteInput)
    );
    assert_eq!(validate_portfolio_inputs(&weights, &bits(&[0.04, 0.01])), Err(RiskError::LengthMismatch));
    assert_eq!(validate_portfolio_inputs(&[], &[]), Err(RiskError::EmptyInput));
    assert_eq!(
        validate_portfolio_inputs(&bits(&[0.5, f64::INFINITY]), &bits(&[0.04, 0.01])),
        Err(RiskError::LengthMismatch)
    );
    assert_eq!(
        validate_portfolio_inputs(&bits(&[0.5, f64::INFINITY]), &bits(&[0.04, 0.01, 0.01, 0.03])),
        Err(RiskError::NonFiniteInput)
    );
    assert_eq!(validate_portfolio_inputs(&weights, &bits(&[0.04, 0.006, 0.006, 0.01])), Ok(()));
}
