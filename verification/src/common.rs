//! Shared error-reporting types used by the service and its callers.

use vstd::prelude::*;

verus! {

/// A filesystem path rendered as a plain string.
pub type StringPath = String;

/// A serializable error descriptor handed to external callers: a numeric
/// code, a short machine-oriented message and a human-readable message.
pub struct ErrorInfo {
    pub error_code: i32,
    pub msg: String,
    pub human_msg: String,
}

impl Clone for ErrorInfo {
    fn clone(&self) -> (res: Self)
        ensures
            res == *self,
    {
        ErrorInfo {
            error_code: self.error_code,
            msg: self.msg.clone(),
            human_msg: self.human_msg.clone(),
        }
    }
}

/// Errors shared across the service's collaborators.
pub enum CommonError {
    IllegalArgument(String),
}

impl CommonError {
    /// A human-readable description of the error.
    pub fn message(&self) -> (res: String)
        ensures
            self matches CommonError::IllegalArgument(s) ==> res@ == s@,
    {
        match self {
            CommonError::IllegalArgument(s) => s.clone(),
        }
    }
}

} // verus!
