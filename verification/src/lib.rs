//! A small HTTP/1.1 request-handling engine.
//!
//! The library holds the verified core of a tiny web server: the wire-format
//! parser, the header table, the exact-match router, the middleware decision
//! logic, the response writer and a FIFO job queue. The socket, filesystem
//! and thread plumbing around it lives with the application.

pub mod kv;
pub mod text;
pub mod method;
pub mod header;
pub mod routes;
pub mod body;
pub mod request;
pub mod status;
pub mod response;
pub mod body_parser;
pub mod path;
pub mod serve;
pub mod pool;
pub mod server;
