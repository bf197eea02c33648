//! A privilege-separated HTTP/1.x file server, as a verified library.
//!
//! The verified core covers the HTTP request codec (percent decoding,
//! request-line and header parsing), response rendering, longest-prefix
//! location routing with allow/deny decisions, the MIME-extension table,
//! and the per-connection decision functions of the worker processes.
//! The process topology, sockets and file-descriptor passing around the
//! core are ordinary I/O and live outside the library.

pub mod client;
pub mod fs;
pub mod http;
pub mod mime;
pub mod proc;
pub mod text;
