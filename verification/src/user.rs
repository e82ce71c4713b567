//! The resolved user record handed back by the persistence collaborator.
//! Text fields are carried as raw UTF-8 bytes; the two timestamps are Unix
//! seconds.
use vstd::prelude::*;

verus! {

use crate::errors::{ErrorCode, FieldErrors, GeneralError};

/// A user as persistence returns it. The session layer reads the id and the
/// email; it never inspects the password hash.
pub struct User {
    pub id: Vec<u8>,
    pub email: Vec<u8>,
    pub password: Vec<u8>,
    pub created_at: i64,
    pub updated_at: i64,
}

impl User {
    /// Field-for-field copy.
    pub fn duplicate(&self) -> (r: User)
        ensures
            r.id@ == self.id@,
            r.email@ == self.email@,
            r.password@ == self.password@,
            r.created_at == self.created_at,
            r.updated_at == self.updated_at,
    {
        User {
            id: crate::util::copy_bytes(&self.id),
            email: crate::util::copy_bytes(&self.email),
            password: crate::util::copy_bytes(&self.password),
            created_at: self.created_at,
            updated_at: self.updated_at,
        }
    }
}

/// The outcome of an operation that should yield a user: the user, a list
/// of per-field validation errors, or a general error with a code.
pub enum UserResult {
    User(User),
    FieldErrors(FieldErrors),
    GeneralError(GeneralError),
}

/// Whether a result is a general error with the given code and message.
pub open spec fn general_with(r: UserResult, code: ErrorCode, message: Seq<char>) -> bool {
    r matches UserResult::GeneralError(g) && g.code == code && g.message@ == message
}

impl UserResult {
    /// A general error: the referenced user does not exist.
    pub fn not_found(message: &str) -> (r: UserResult)
        ensures
            general_with(r, ErrorCode::NotFound, message@),
    {
        UserResult::GeneralError(
            GeneralError { code: ErrorCode::NotFound, message: message.to_owned() },
        )
    }

    /// A general error: the caller is not authenticated.
    pub fn unauthorized(message: &str) -> (r: UserResult)
        ensures
            general_with(r, ErrorCode::Unauthorized, message@),
    {
        UserResult::GeneralError(
            GeneralError { code: ErrorCode::Unauthorized, message: message.to_owned() },
        )
    }

    /// A general error: the record already exists.
    pub fn conflict(message: &str) -> (r: UserResult)
        ensures
            general_with(r, ErrorCode::Conflict, message@),
    {
        UserResult::GeneralError(
            GeneralError { code: ErrorCode::Conflict, message: message.to_owned() },
        )
    }

    /// A general error: an unrelated server failure.
    pub fn server() -> (r: UserResult)
        ensures
            general_with(r, ErrorCode::ServerError, "something went wrong"@),
    {
        UserResult::GeneralError(
            GeneralError { code: ErrorCode::ServerError, message: "something went wrong".to_owned() },
        )
    }
}

} // verus!
