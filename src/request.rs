//! Requests as the client hands them to a transport.

use vstd::prelude::*;

verus! {

/// The HTTP methods the client issues.
#[derive(Debug, Clone, Copy, PartialEq, Eq, Structural)]
pub enum Method {
    Get,
    Post,
    Put,
    Delete,
}

/// A request ready to send: method, absolute URI, default headers, Basic
/// credentials, and a JSON body with its content headers.
pub struct Request {
    pub method: Method,
    pub uri: String,
    /// Default headers of the client that go on the wire: all but those that
    /// the credentials or the body's content headers replace.
    pub headers: Vec<(String, String)>,
    /// User name and password for a Basic `Authorization` header.
    pub auth: Option<(String, String)>,
    /// JSON text of the body.
    pub body: Option<String>,
    /// `Content-Length`: the body's length in bytes.
    pub content_length: Option<u64>,
    /// `Content-Type` of the body.
    pub content_type: Option<String>,
}

} // verus!
