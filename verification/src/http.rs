//! The HTTP port: the capability the fetching services consume.
//!
//! The library never performs network transfers itself; it calls through
//! [`CanGetHTTP`], which a surrounding program implements with its transport
//! of choice. Nothing is assumed of what a transfer returns.

use vstd::prelude::*;

verus! {

/// A placeholder carrier for a surrounding program's transport.
pub struct HttpService {}

impl HttpService {
    pub fn new() -> (r: HttpService) {
        HttpService {  }
    }
}

/// The fetch capability: one blocking GET of a URL, yielding the body text
/// or a transport error. No contract binds an implementation: the services
/// that call it state what holds of every outcome.
pub trait CanGetHTTP {
    fn get(&self, url: &str) -> Result<String, HttpError>;
}

/// What went wrong with a transfer, as far as the port reports it.
#[derive(Debug, Clone, PartialEq, Eq, Structural, Copy)]
pub enum ErrorKind {
    UnknownError,
}

/// A transport failure: its kind and a human-readable message.
#[derive(Debug, Clone, PartialEq)]
pub struct HttpError {
    pub kind: ErrorKind,
    pub msg: String,
}

/// Builds the transport error used where the port reports nothing more
/// specific; without a message it carries a fixed placeholder text.
pub fn create_unknown_error(maybe_message: Option<&str>) -> (r: HttpError)
    ensures
        r.kind is UnknownError,
        r.msg@ == match maybe_message {
            Some(msg) => msg@,
            None => "Unknown http error"@,
        },
{
    let message = match maybe_message {
        Some(msg) => msg,
        None => "Unknown http error",
    };
    HttpError { kind: ErrorKind::UnknownError, msg: message.to_owned() }
}

} // verus!
