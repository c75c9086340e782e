# riskcore

A small portfolio-risk core: historical and parametric Value at Risk,
Expected Shortfall, EWMA and sample volatility, maximum drawdown, sample
covariance and portfolio volatility, a command-line report and a C ABI.

## Layout

- `src/` is the verified library (Verus). It holds everything that does not
  need floating-point arithmetic, with contracts:
  - `ieee`: the binary64 encoding read as bits (`f64::to_bits`): finiteness,
    NaN, negation, absolute value and the IEEE order of values.
  - `validation`: for each risk measure, exactly which `RiskError` (if any)
    its inputs earn, in the order the measure checks them, and the laws that
    every measure refuses empty input, non-finite observations, invalid
    confidence levels and misshapen covariance matrices.
  - `order`: losses of a return series and stable sorting by value, with the
    proof that a stable sort has exactly one outcome.
  - `matrix`: the scale of a covariance matrix (largest absolute entry, at
    least one) from which its tolerances are drawn.
  - `input`: the layout of a return file (lines, blank lines, trimming,
    a single column per line).
  - `error`: `RiskError`.
- `app/` is ordinary Rust: the `f64` arithmetic of each measure, the C ABI and
  the command-line program. It calls the library for validation, ordering,
  matrix scale and file layout.
- `tests/` exercises the library, comparing it with the standard library's
  own float predicates, sorting and line splitting.
