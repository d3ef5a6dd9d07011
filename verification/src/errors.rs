//! The failures the arithmetic and the transforms report.

use vstd::prelude::*;

verus! {

/// Every failure is synchronous and reflects malformed input or a planning
/// defect; none is transient.
#[derive(Clone, Copy, Debug, PartialEq, Eq, Structural)]
pub enum MathError {
    /// An empty input sequence, or a requested target length of zero.
    InvalidLength,
    /// A two-dimensional input that is not rectangular, or whose row or
    /// column lengths disagree with the stated dimensions.
    DimensionMismatch,
    /// A divisor — or the denominator of `tan` or `tanh` — whose squared
    /// magnitude is exactly the zero scalar.
    DivisionByZero,
    /// The planner's factorization did not multiply back to the target
    /// length.
    IncompleteFactorization,
}

} // verus!
