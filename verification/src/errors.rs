use vstd::prelude::*;

verus! {

/// The failure taxonomy shared by every operation of the library.
#[derive(Clone, Copy, Debug, PartialEq, Eq, Structural)]
pub enum ApiError {
    /// Missing, malformed or expired credential, or a failed login.
    InvalidCredential,
    /// A principal, classroom, assignment, submission or file is absent.
    NotFound,
    /// The principal holds no role-grant on the target classroom.
    NotMember,
    /// A role-grant exists but its role does not permit the action.
    InsufficientRole,
    /// Duplicate email at registration, or a duplicate classroom join.
    Conflict,
    /// A malformed request value, such as an unparsable due date.
    ValidationError,
    /// A storage or signing failure outside the caller's control.
    InternalFailure,
}

} // verus!
