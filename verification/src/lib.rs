//! A small HTTP/1.1 protocol core for a static-file server: request parsing,
//! path-safety classification, response building and wire serialization.

pub mod text;
pub mod headers;
pub mod request;
pub mod response;
pub mod resolve;
pub mod mime;
pub mod handlers;
pub mod laws;
