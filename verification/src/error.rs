//! The error taxonomy of the service.

use vstd::prelude::*;

use crate::schemas::FieldError;

verus! {

/// Every failure a service operation can surface.
#[derive(Debug, Clone, PartialEq)]
pub enum AppError {
    /// A referenced entity is absent.
    NotFound(String),
    /// Caller input violates a stated invariant.
    BadRequest(String),
    /// Field-level validation failures, every violated field listed.
    Validation(Vec<FieldError>),
    /// Missing, expired, or wrong-type session, or a failed credential check.
    Unauthorized,
    /// Data-integrity fault or unexpected failure; detail stays server-side.
    Internal(String),
    /// Store-layer failure; detail stays server-side.
    Database(String),
}

impl AppError {
    /// Create a validation error from field errors.
    pub fn validation(fields: Vec<FieldError>) -> (r: AppError)
        ensures
            r == AppError::Validation(fields),
    {
        AppError::Validation(fields)
    }
}

} // verus!
