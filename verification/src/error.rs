//! Failure kinds of the kernel's fallible operations.

use vstd::prelude::*;

verus! {

/// Why a kernel operation refused its operands.
///
/// Every failure is fatal to the operation that reports it: the caller
/// gets this value instead of a silently wrong result.
#[derive(Clone, Copy, Debug, PartialEq, Eq, Structural)]
pub enum AlgebraError {
    /// Point/vector algebra misuse, such as adding two points.
    InvalidOperand,
    /// Division by a scalar that is exactly zero, or normalizing a
    /// zero-length vector.
    DivisionByZero,
    /// A matrix whose determinant is approximately zero has no inverse.
    NotInvertible,
}

} // verus!
