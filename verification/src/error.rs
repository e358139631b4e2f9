//! Error kinds of the multiplexer core.

use vstd::prelude::*;

use crate::text::{concat, decimal, decimal_string};

verus! {

/// Authentication-related errors.
#[derive(Debug, Clone, PartialEq, Eq)]
pub enum AuthError {
    /// The client sent an unsupported authentication mechanism.
    UnsupportedMechanism(String),
    /// Expected the null byte at the start of authentication.
    ExpectedNullByte,
    /// Expected the BEGIN command after successful authentication.
    ExpectedBegin,
    /// Invalid authentication data format.
    InvalidData(String),
    /// Authentication timeout.
    Timeout,
    /// The UID provided does not match expectations.
    UidMismatch { expected: u32, actual: u32 },
}

/// The text of an authentication error, as it is displayed.
pub open spec fn auth_error_text(e: AuthError) -> Seq<char> {
    match e {
        AuthError::UnsupportedMechanism(m) => "Unsupported authentication mechanism: "@ + m@,
        AuthError::ExpectedNullByte => "Expected null byte at start of authentication"@,
        AuthError::ExpectedBegin => "Expected BEGIN after authentication"@,
        AuthError::InvalidData(d) => "Invalid auth data: "@ + d@,
        AuthError::Timeout => "Authentication timed out"@,
        AuthError::UidMismatch { expected, actual } => "UID mismatch: expected "@ + decimal(expected as nat)
            + ", got "@ + decimal(actual as nat),
    }
}

impl AuthError {
    /// The error's text, as it is displayed.
    pub fn to_string(&self) -> (r: String)
        ensures
            r@ == auth_error_text(*self),
    {
        match self {
            AuthError::UnsupportedMechanism(m) => concat("Unsupported authentication mechanism: ", m.as_str()),
            AuthError::ExpectedNullByte => "Expected null byte at start of authentication".to_owned(),
            AuthError::ExpectedBegin => "Expected BEGIN after authentication".to_owned(),
            AuthError::InvalidData(d) => concat("Invalid auth data: ", d.as_str()),
            AuthError::Timeout => "Authentication timed out".to_owned(),
            AuthError::UidMismatch { expected, actual } => {
                let e = decimal_string(*expected as u64);
                let a = decimal_string(*actual as u64);
                let head = concat("UID mismatch: expected ", e.as_str());
                let mid = concat(head.as_str(), ", got ");
                concat(mid.as_str(), a.as_str())
            },
        }
    }
}

/// Routing-related errors.
#[derive(Debug, Clone, PartialEq, Eq)]
pub enum RoutingError {
    /// No route found for the destination.
    NoRoute(String),
    /// Failed to update routing table.
    UpdateFailed(String),
    /// The destination name is invalid.
    InvalidDestination(String),
}

/// Client connection errors.
#[derive(Debug, Clone, PartialEq, Eq)]
pub enum ClientError {
    /// Client disconnected unexpectedly.
    Disconnected,
    /// Client sent an invalid message.
    InvalidMessage(String),
    /// Client not authenticated.
    NotAuthenticated,
    /// Client ID not found.
    UnknownClient(u64),
    /// Too many pending requests from client.
    TooManyPending,
}

/// Message-related errors.
#[derive(Debug, Clone, PartialEq, Eq)]
pub enum MessageError {
    /// Missing required message header field.
    MissingHeader(String),
    /// Invalid message serial number.
    InvalidSerial,
    /// No reply serial in reply message.
    NoReplySerial,
    /// Message body deserialization failed.
    DeserializeFailed(String),
    /// Message body serialization failed.
    SerializeFailed(String),
}

} // verus!
