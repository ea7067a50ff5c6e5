//! A minimal HTTP/1.1 message library: request decoding, typestate response
//! construction, wire-format serialization, and route dispatch.

pub mod handlers;
pub mod headers;
pub mod http;
pub mod request;
pub mod text;
