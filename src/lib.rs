//! A byte-range streaming server core: it reads and parses a request head,
//! resolves the file path and the byte range asked for, composes the
//! `206 Partial Content` response head, and drives a zero-copy transfer loop
//! whose every step is decided here and performed by the caller.
pub mod errors;
pub mod text;
pub mod request;
pub mod target;
pub mod range;
pub mod response;
pub mod transfer;
pub mod serve;
