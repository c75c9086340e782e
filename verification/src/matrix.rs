//! The scale of a covariance matrix, from which its tolerances are drawn.
use vstd::prelude::*;
use crate::ieee::{ONE, abs, is_nan, less_than, spec_abs, spec_is_nan, spec_is_negative_signed, spec_key};

verus! {

/// The largest absolute entry of the matrix, or `1.0` when every entry is
/// smaller: `fold(1.0, |current, value| current.max(value.abs()))`. As with
/// `f64::max`, NaN entries are passed over.
pub fn covariance_scale(matrix: &[u64]) -> (r: u64)
    ensures
        !spec_is_nan(r),
        !spec_is_negative_signed(r),
        spec_key(ONE) <= spec_key(r),
        forall|i: int|
            0 <= i < matrix@.len() && !spec_is_nan(#[trigger] matrix@[i]) ==> spec_key(
                spec_abs(matrix@[i]),
            ) <= spec_key(r),
        r == ONE || exists|i: int|
            0 <= i < matrix@.len() && !spec_is_nan(#[trigger] matrix@[i]) && r == spec_abs(
                matrix@[i],
            ),
{
    let n = matrix.len();
    let mut current = ONE;
    for i in 0..n
        invariant
            n == matrix@.len(),
            !spec_is_nan(current),
            !spec_is_negative_signed(current),
            spec_key(ONE) <= spec_key(current),
            forall|j: int|
                0 <= j < i && !spec_is_nan(#[trigger] matrix@[j]) ==> spec_key(spec_abs(matrix@[j]))
                    <= spec_key(current),
            current == ONE || exists|j: int|
                0 <= j < i && !spec_is_nan(#[trigger] matrix@[j]) && current == spec_abs(matrix@[j]),
    {
        let magnitude = abs(matrix[i]);
        if !is_nan(magnitude) && less_than(current, magnitude) {
            current = magnitude;
        }
    }
    current
}

} // verus!
