//! The error taxonomy and the path resolution capability.

use vstd::prelude::*;

verus! {

/// What a call can fail with.
#[derive(Debug, PartialEq, Eq)]
pub enum Error {
    /// The HTTP transport could not be set up.
    HttpClientError,
    /// The base URL or the final request URI did not parse.
    UrlError,
    /// A value could not be serialised to JSON, or a body could not be decoded.
    ParseError,
    /// The transport did not complete the exchange.
    RequestError,
    /// The server answered outside the success class: status and body.
    HttpError(u16, String),
}

/// Resource path of a domain type, built from a parameter value
/// (e.g. `"api/devices/1234"`).
///
/// An `Err` is handed on to the caller before any request is made.
pub trait RestPath<T> {
    fn get_path(par: T) -> Result<String, Error>;
}

} // verus!
