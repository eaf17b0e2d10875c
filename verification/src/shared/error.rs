//! The one error of the service.
use vstd::prelude::*;

verus! {

/// What went wrong, by whose fault, and the sentence that says so.
#[derive(Debug, Clone)]
pub enum RaError {
    /// The caller's input is not acceptable.
    Validation(String),
    /// There is no such thing, or none that the caller may know of.
    NotFound(String),
    Unauthorized(String),
    Forbidden(String),
    Conflict(String),
    /// The service, or something it depends on, failed.
    Internal(String),
}

pub type Result<T> = core::result::Result<T, RaError>;

impl RaError {
    /// The sentence carried by the error.
    pub open spec fn text(self) -> Seq<char> {
        match self {
            RaError::Validation(m) => m@,
            RaError::NotFound(m) => m@,
            RaError::Unauthorized(m) => m@,
            RaError::Forbidden(m) => m@,
            RaError::Conflict(m) => m@,
            RaError::Internal(m) => m@,
        }
    }

    pub fn message(&self) -> (message: String)
        ensures
            message@ == self.text(),
    {
        match self {
            RaError::Validation(m) => m.clone(),
            RaError::NotFound(m) => m.clone(),
            RaError::Unauthorized(m) => m.clone(),
            RaError::Forbidden(m) => m.clone(),
            RaError::Conflict(m) => m.clone(),
            RaError::Internal(m) => m.clone(),
        }
    }
}

} // verus!
