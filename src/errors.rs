//! The ways a submission or a stored row can be refused.

use vstd::prelude::*;

verus! {

/// Which rule a submission broke. Each rule has a kind of its own, so that a
/// caller can tell which ballot was malformed.
#[derive(Clone, Copy, Debug, PartialEq, Eq, Structural)]
pub enum ValidationError {
    /// The identifier is not 36 characters long.
    InvalidUuid,
    /// A link of the proof-of-work chain does not carry the required prefix.
    InvalidNonce,
    /// The candidate order does not hold one entry per candidate.
    OrderLength,
    /// The candidate order is not a permutation of the candidate slots.
    OrderNotPermutation,
    TwoRoundValue,
    OneRoundValue,
    DivideLength,
    /// The divide ballot does not spend exactly the budget.
    DivideSum,
    D21Length,
    /// A D21 value is outside `{-1, 0, 1}`.
    D21Values,
    D21NoPositive,
    D21TooManyPositive,
    /// More than one negative vote, or a negative vote with fewer than two positive ones.
    D21TooManyNegative,
    DoodleLength,
    /// A doodle value is outside `{0, 1, 2}`.
    DoodleValues,
    DoodleNoPositive,
    OrderPollLength,
    OrderPollNotPermutation,
    StarLength,
    /// A star value is outside `[0, 100]`.
    StarValues,
    StarNoPositive,
}

/// The errors of the library and of the storage around it.
#[derive(Clone, Copy, Debug, PartialEq, Eq, Structural)]
pub enum MyError {
    /// No row is stored under the requested identifier.
    NotFound,
    /// The submission broke a rule.
    ValidationError(ValidationError),
    /// The store failed, or refused a duplicate identifier.
    StorageError,
    /// A stored row does not have the shape of an encoded submission.
    MalformedRow,
}

/// The rejection of a submission for breaking rule `e`.
pub open spec fn invalid(e: ValidationError) -> Result<(), MyError> {
    Err(MyError::ValidationError(e))
}

} // verus!
