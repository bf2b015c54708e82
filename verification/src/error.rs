//! The failures of the protocol's operations.
use vstd::prelude::*;

verus! {

/// Why an operation was refused. A refused operation leaves the state as it was.
#[derive(Clone, Copy, Debug, PartialEq, Eq, Structural)]
pub enum Error {
    /// The acting identity did not authorize the call, or the caller is not
    /// the administrator or partner that the operation is reserved for.
    Unauthorized,
    /// The component already has an administrator.
    AlreadyInitialized,
    /// The identity is already a registered expert.
    AlreadyRegistered,
    /// No claim has the given id.
    ClaimNotFound,
    /// No expert is registered under the given identity.
    ExpertNotFound,
    /// The claim has no consensus result yet.
    ConsensusNotReached,
    /// A confidence above 100.
    ConfidenceOutOfRange,
    /// A stake below the lowest tier's threshold.
    StakeTooLow,
    /// The expert has already reviewed the claim.
    DuplicateReview,
    /// An amount below zero.
    NegativeAmount,
    /// A step that the lifecycle of a claim does not allow.
    InvalidTransition,
    /// A reward would be divided by a winning stake of zero.
    DivisionByZero,
    /// A counter or an amount would leave the range of its type.
    Overflow,
}

/// The classes into which the failures fall.
#[derive(Clone, Copy, Debug, PartialEq, Eq, Structural)]
pub enum ErrorKind {
    Authorization,
    AlreadyInitialized,
    AlreadyRegistered,
    NotFound,
    Validation,
    Arithmetic,
}

impl Error {
    /// The class of a failure.
    pub open spec fn spec_kind(self) -> ErrorKind {
        match self {
            Error::Unauthorized => ErrorKind::Authorization,
            Error::AlreadyInitialized => ErrorKind::AlreadyInitialized,
            Error::AlreadyRegistered => ErrorKind::AlreadyRegistered,
            Error::ClaimNotFound | Error::ExpertNotFound | Error::ConsensusNotReached =>
                ErrorKind::NotFound,
            Error::ConfidenceOutOfRange | Error::StakeTooLow | Error::DuplicateReview
            | Error::NegativeAmount | Error::InvalidTransition => ErrorKind::Validation,
            Error::DivisionByZero | Error::Overflow => ErrorKind::Arithmetic,
        }
    }

    /// The class of a failure.
    pub fn kind(self) -> (k: ErrorKind)
        ensures
            k == self.spec_kind(),
    {
        match self {
            Error::Unauthorized => ErrorKind::Authorization,
            Error::AlreadyInitialized => ErrorKind::AlreadyInitialized,
            Error::AlreadyRegistered => ErrorKind::AlreadyRegistered,
            Error::ClaimNotFound => ErrorKind::NotFound,
            Error::ExpertNotFound => ErrorKind::NotFound,
            Error::ConsensusNotReached => ErrorKind::NotFound,
            Error::ConfidenceOutOfRange => ErrorKind::Validation,
            Error::StakeTooLow => ErrorKind::Validation,
            Error::DuplicateReview => ErrorKind::Validation,
            Error::NegativeAmount => ErrorKind::Validation,
            Error::InvalidTransition => ErrorKind::Validation,
            Error::DivisionByZero => ErrorKind::Arithmetic,
            Error::Overflow => ErrorKind::Arithmetic,
        }
    }
}

} // verus!
