use riskcore::error::RiskError;
use riskcore::ieee::negate;
use riskcore::validation::{
    validate_covariance_inputs, validate_drawdown_returns, validate_ewma_inputs,
    validate_parametric_inputs, validate_portfolio_inputs, validate_returns, validate_tail_inputs,
};

fn bits(values: &[f64]) -> Vec<u64> {
    values.iter().map(|v| v.to_bits()).collect()
}

#[test]
fn every_measure_refuses_empty_input() {
    let level = 0.95f64.to_bits();
    let other = bits(&[0.01, 0.02]);
    assert_eq!(validate_returns(&[]), Err(RiskError::EmptyInput));
    assert_eq!(validate_tail_inputs(&[], level), Err(RiskError::EmptyInput));
    assert_eq!(validate_parametric_inputs(&[], level), Err(RiskError::EmptyInput));
    assert_eq!(validate_ewma_inputs(&[], 0.94f64.to_bits()), Err(RiskError::EmptyInput));
    assert_eq!(validate_drawdown_returns(&[]), Err(RiskError::EmptyInput));
    assert_eq!(validate_covariance_inputs(&[], &other), Err(RiskError::EmptyInput));
    assert_eq!(validate_covariance_inputs(&other, &[]), Err(RiskError::EmptyInput));
    assert_eq!(validate_portfolio_inputs(&[], &other), Err(RiskError::EmptyInput));
}

#[test]
fn every_measure_refuses_non_finite_observations() {
    let level = 0.95f64.to_bits();
    let bad = bits(&[0.01, f64::INFINITY, 0.02]);
    let other = bits(&[0.01, 0.02, 0.03]);
    let nine = bits(&[0.1; 9]);
    assert_eq!(validate_returns(&bad), Err(RiskError::NonFiniteInput));
    assert_eq!(validate_tail_inputs(&bad, level), Err(RiskError::NonFiniteInput));
    assert_eq!(validate_parametric_inputs(&bad, level), Err(RiskError::NonFiniteInput));
    assert_eq!(validate_ewma_inputs(&bad, 0.94f64.to_bits()), Err(RiskError::NonFiniteInput));
    assert_eq!(validate_drawdown_returns(&bad), Err(RiskError::NonFiniteInput));
    assert_eq!(validate_covariance_inputs(&bad, &other), Err(RiskError::NonFiniteInput));
    assert_eq!(validate_covariance_inputs(&other, &bad), Err(RiskError::NonFiniteInput));
    assert_eq!(validate_portfolio_inputs(&bad, &nine), Err(RiskError::NonFiniteInput));
}

#[test]
fn measures_with_a_confidence_level_refuse_invalid_ones() {
    let series = bits(&[0.01, -0.02]);
    for level in [1.0f64, 0.3, -0.9, f64::NAN, f64::INFINITY] {
        assert_eq!(validate_tail_inputs(&series, level.to_bits()), Err(RiskError::InvalidConfidence));
        assert_eq!(validate_parametric_inputs(&series, level.to_bits()), Err(RiskError::InvalidConfidence));
        assert_eq!(validate_parametric_inputs(&[], level.to_bits()), Err(RiskError::InvalidConfidence));
    }
}

#[test]
fn misshapen_matrices_are_refused() {
    let weights = bits(&[0.2, 0.3, 0.5]);
    assert_eq!(validate_portfolio_inputs(&weights, &bits(&[0.1; 8])), Err(RiskError::LengthMismatch));
    assert_eq!(validate_portfolio_inputs(&weights, &bits(&[0.1; 10])), Err(RiskError::LengthMismatch));
    assert_eq!(validate_portfolio_inputs(&weights, &bits(&[0.1; 3])), Err(RiskError::LengthMismatch));
    assert_eq!(validate_portfolio_inputs(&weights, &bits(&[0.1; 9])), Ok(()));
}

#[test]
fn negation_undoes_itself() {
    for value in [0.0f64, -0.0, 1.5, -2.25, f64::INFINITY, f64::NAN, f64::MIN_POSITIVE] {
        assert_eq!(negate(negate(value.to_bits())), value.to_bits());
    }
}
