//! The error surfaced to the transport layer: an HTTP-style status code and
//! an optional message.

use vstd::prelude::*;

verus! {

/// A failed operation as reported to the caller. A not-found class failure
/// carries status 403, a storage-class failure status 500.
#[derive(Debug)]
pub struct ServerError {
    pub message: Option<String>,
    pub status_code: u16,
}

impl ServerError {
    /// A storage-class failure.
    pub fn internal_server_error() -> (e: ServerError)
        ensures
            e.status_code == 500,
            e.message is None,
    {
        ServerError { message: None, status_code: 500 }
    }

    /// A not-found class failure: the referenced comment does not exist.
    pub fn forbidden_error() -> (e: ServerError)
        ensures
            e.status_code == 403,
            e.message is None,
    {
        ServerError { message: None, status_code: 403 }
    }
}

} // verus!
