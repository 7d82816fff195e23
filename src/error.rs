use vstd::prelude::*;
use vstd::string::StringExecFns;

verus! {

/// The ways an operation on the order board can fail.
#[derive(Debug, Clone, PartialEq, Eq)]
pub enum OrderError {
    /// No order carries the requested identifier.
    NotFound,
    /// The shared store could not be accessed exclusively.
    LockFailed(String),
    /// The store cannot take another order (its identifiers are used up).
    DatabaseError(String),
    /// The caller's arguments break a business rule.
    ValidationFailed(String),
}

/// An error handed to the transport layer, which turns it into a reply.
#[derive(Debug)]
pub struct OrderErrorRejection {
    pub err: OrderError,
}

impl OrderError {
    /// The error as a sentence: its kind and, where it has one, its reason.
    pub fn message(&self) -> (r: String)
        ensures
            r@ == self.spec_message(),
    {
        match self {
            OrderError::NotFound => "Not found".to_owned(),
            OrderError::LockFailed(msg) => "Lock failed, reason: ".to_owned().concat(msg.as_str()),
            OrderError::DatabaseError(msg) => "Database error, reason: ".to_owned().concat(
                msg.as_str(),
            ),
            OrderError::ValidationFailed(msg) => "Validation failed, reason: ".to_owned().concat(
                msg.as_str(),
            ),
        }
    }

    pub open spec fn spec_message(&self) -> Seq<char> {
        match self {
            OrderError::NotFound => "Not found"@,
            OrderError::LockFailed(msg) => "Lock failed, reason: "@ + msg@,
            OrderError::DatabaseError(msg) => "Database error, reason: "@ + msg@,
            OrderError::ValidationFailed(msg) => "Validation failed, reason: "@ + msg@,
        }
    }

    /// The HTTP status under which the transport layer reports this error.
    pub fn http_status(&self) -> (r: u16)
        ensures
            r == self.spec_http_status(),
    {
        match self {
            OrderError::NotFound => 404,
            OrderError::ValidationFailed(_) => 400,
            OrderError::LockFailed(_) => 500,
            OrderError::DatabaseError(_) => 500,
        }
    }

    pub open spec fn spec_http_status(&self) -> u16 {
        match self {
            OrderError::NotFound => 404,
            OrderError::ValidationFailed(_) => 400,
            OrderError::LockFailed(_) | OrderError::DatabaseError(_) => 500,
        }
    }

    /// The message that accompanies this error in a reply: the reason it
    /// carries, or `NOT_FOUND`.
    pub fn reply_message(&self) -> (r: String)
        ensures
            r@ == self.spec_reply_message(),
    {
        match self {
            OrderError::NotFound => "NOT_FOUND".to_owned(),
            OrderError::LockFailed(msg) => msg.clone(),
            OrderError::DatabaseError(msg) => msg.clone(),
            OrderError::ValidationFailed(msg) => msg.clone(),
        }
    }

    pub open spec fn spec_reply_message(&self) -> Seq<char> {
        match self {
            OrderError::NotFound => "NOT_FOUND"@,
            OrderError::LockFailed(msg) => msg@,
            OrderError::DatabaseError(msg) => msg@,
            OrderError::ValidationFailed(msg) => msg@,
        }
    }
}

} // verus!
