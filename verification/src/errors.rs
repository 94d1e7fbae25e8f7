use vstd::prelude::*;

verus! {

/// The error taxonomy of the service layer.  Every failure a caller can see
/// is one of these; the transport layer renders `message()` for display.
#[derive(Debug)]
pub enum ServiceError {
    /// The store was unreachable or misconfigured at startup.
    Connection,
    /// A supplied id string does not parse as a store identifier.
    InvalidIdentifier,
    /// A supplied date string does not parse as a well-formed date-time.
    InvalidDateFormat,
    /// The record a toggle was asked to flip does not exist.
    NotFound,
    /// An underlying store failure, with its detail text.
    Store(String),
}

impl ServiceError {
    /// The human-readable text of the error, as the transport layer shows it.
    pub fn message(&self) -> (r: String)
        ensures
            r@ == self.message_text(),
    {
        match self {
            ServiceError::Connection => String::from_str("Database connection failed"),
            ServiceError::InvalidIdentifier => String::from_str("Invalid ID format"),
            ServiceError::InvalidDateFormat => String::from_str("Invalid date format"),
            ServiceError::NotFound => String::from_str("Record not found"),
            ServiceError::Store(detail) => detail.clone(),
        }
    }

    /// What `message` returns for each variant.
    pub open spec fn message_text(&self) -> Seq<char> {
        match self {
            ServiceError::Connection => "Database connection failed"@,
            ServiceError::InvalidIdentifier => "Invalid ID format"@,
            ServiceError::InvalidDateFormat => "Invalid date format"@,
            ServiceError::NotFound => "Record not found"@,
            ServiceError::Store(detail) => detail@,
        }
    }
}

} // verus!
