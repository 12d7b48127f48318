//! An embeddable HTTP/1.1 server library: request parsing, URI-template
//! routing with content-type negotiation, response framing, and the
//! decision logic of the server-sent-events subsystem.
//!
//! All I/O (sockets, files, the clock) is kept behind small interfaces so
//! that the request pipeline itself is pure and fully specified.

pub mod configuration;
pub mod connection;
pub mod http_parser;
pub mod imap;
pub mod render;
pub mod request;
pub mod sse;
pub mod text;
pub mod uri_template;
pub mod utils;
