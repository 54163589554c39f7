//! Body-consumption layer of an HTTP message abstraction.
//!
//! Turns an already-parsed set of headers plus a demand-driven source of raw
//! byte chunks into a size-bounded complete byte buffer, a decoded form
//! payload, or a lazy sequence of text lines, negotiating character encoding
//! and enforcing size limits against a source that may lie about its declared
//! length.

pub mod body;
pub mod charset;
pub mod cookies;
pub mod errors;
pub mod form;
pub mod headers;
pub mod lines;
pub mod media;
pub mod message;
pub mod payload;
pub mod text;
