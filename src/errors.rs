//! Errors of the token service that reach its callers as text.
use vstd::prelude::*;

verus! {

pub enum TokenManagerError {
    DeserializationError(String),
    SerializationError(String),
    FailedSendEmail(String),
}

impl TokenManagerError {
    /// The message shown for the error.
    pub fn message(&self) -> (r: String)
        ensures
            r@ == match self {
                TokenManagerError::DeserializationError(s) => "Deserialization error: "@ + s@,
                TokenManagerError::SerializationError(s) => "Serialization error: "@ + s@,
                TokenManagerError::FailedSendEmail(s) => "Failed while send email confirmation: "@ + s@,
            },
    {
        let (mut m, detail) = match self {
            TokenManagerError::DeserializationError(s) => (String::from_str("Deserialization error: "), s),
            TokenManagerError::SerializationError(s) => (String::from_str("Serialization error: "), s),
            TokenManagerError::FailedSendEmail(s) => (
                String::from_str("Failed while send email confirmation: "),
                s,
            ),
        };
        m.append(detail.as_str());
        m
    }
}

} // verus!
