//! What a request can fail with, and how the failure is reported.

use vstd::prelude::*;
use vstd::string::StringExecFns;
use crate::pxe::resolve::ResolveError;

verus! {

/// The body of an error response.
#[derive(Debug, Clone)]
pub struct ErrorDetail {
    pub error: String,
}

/// Why a request was not served.
#[derive(Debug)]
pub enum PxeError {
    /// The signature of a file request is missing or wrong.
    InvalidAuthentication,
    /// No host is configured with this MAC address.
    UnknownHost(String),
    /// The requested path leads to no file.
    Unresolved(ResolveError),
    /// Anything else; the text is for the server's log, not for the client.
    Internal(String),
}

/// What the client is told about `e`.
pub open spec fn spec_message(e: PxeError) -> Seq<char> {
    match e {
        PxeError::InvalidAuthentication => "key is missing or invalid"@,
        PxeError::UnknownHost(mac) => "no PXE configuration for MAC "@ + mac@,
        PxeError::Unresolved(_) => "no such file"@,
        PxeError::Internal(_) => "internal server error"@,
    }
}

/// An error body with the given message.
pub fn error(message: String) -> (detail: ErrorDetail)
    ensures
        detail.error@ == message@,
{
    ErrorDetail { error: message }
}

impl PxeError {
    /// The HTTP status that reports the error: 400 for a bad signature, 404
    /// for an unknown host or a path that leads to no file, 500 for the rest.
    pub fn status(&self) -> (code: u16)
        ensures
            code == match self {
                PxeError::InvalidAuthentication => 400u16,
                PxeError::UnknownHost(_) => 404u16,
                PxeError::Unresolved(_) => 404u16,
                PxeError::Internal(_) => 500u16,
            },
    {
        match self {
            PxeError::InvalidAuthentication => 400,
            PxeError::UnknownHost(_) => 404,
            PxeError::Unresolved(_) => 404,
            PxeError::Internal(_) => 500,
        }
    }

    /// The body of the response that reports the error.  It says nothing of
    /// what went wrong inside the server.
    pub fn detail(&self) -> (detail: ErrorDetail)
        ensures
            detail.error@ == spec_message(*self),
    {
        match self {
            PxeError::InvalidAuthentication => error("key is missing or invalid".to_owned()),
            PxeError::UnknownHost(mac) => {
                let mut message = "no PXE configuration for MAC ".to_owned();
                message.append(mac.as_str());
                error(message)
            },
            PxeError::Unresolved(_) => error("no such file".to_owned()),
            PxeError::Internal(_) => error("internal server error".to_owned()),
        }
    }
}

} // verus!
