//! A REST client core: resource paths are resolved per domain type, request
//! URIs are assembled from a base URL, a path and an ordered query, requests
//! carry the client's headers and credentials, and responses are classified
//! into a body or a typed error.

pub mod client;
pub mod encoding;
pub mod error;
pub mod request;
pub mod response;
mod text;

pub use client::{Query, RestClient};
pub use error::{Error, RestPath};
pub use request::{Method, Request};
