//! The protocol layer: requests, their headers, and responses.

pub mod grammar;
pub mod headers;
pub mod laws;
pub mod request;
pub mod response;
