//! Why a request for an integration is turned down.

use vstd::prelude::*;

verus! {

/// The ways in which an integration along a profile fails. A failed call
/// yields one of these and never a number.
#[derive(Clone, Copy, Debug, PartialEq, Eq, Structural)]
pub enum ProfileError {
    /// The number of integration steps is zero or negative.
    StepCount,
    /// The profile has fewer than two points.
    TooFewPoints,
    /// The break points of the profile are not in non-decreasing order, or one
    /// of them is not a number.
    NotSorted,
    /// The target lies outside the span that the profile covers, or a step
    /// has left the profile past its last point.
    OutOfSpan,
    /// The arithmetic has broken down: a segment whose two ends coincide, so
    /// that nothing can be interpolated in it, a reading that is not a
    /// number, or a step that did not move the independent variable forward.
    Degenerate,
}

} // verus!
