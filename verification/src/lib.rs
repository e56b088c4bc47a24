//! Stream-decoding and compressed-object-extraction core of a
//! page-description document model.
//!
//! A stream object is a metadata dictionary plus a byte payload; the payload
//! may be encoded by an ordered chain of named filters.  This crate builds
//! the filter chain from the dictionary, decodes the payload through an
//! opaque codec registry, and — for object streams — recovers an offset
//! table from the decoded bytes so that packed sub-objects can be sliced
//! out by index.

pub mod err;
pub mod primitive;
pub mod filter;
pub mod lexer;
pub mod stream;
pub mod objstm;
