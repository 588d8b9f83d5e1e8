//! Universally Unique Lexicographically Sortable Identifiers (ULIDs): 128-bit
//! values made of a 48-bit millisecond timestamp above 80 bits of
//! randomness, written as 26 characters of Crockford's base32.
//!
//! - [`crockford`]: the text codec.
//! - [`ulid`]: the identifier, its fields and its byte form.
//! - [`generator`]: plain, monotonic and strictly monotonic generation.
//! - [`interop`]: conversion to and from `uuid::Uuid`.

pub mod crockford;
pub mod error;
pub mod generator;
pub mod interop;
pub mod ulid;

pub use crate::error::ULIDError;
pub use crate::generator::ULIDGenerator;
pub use crate::ulid::{Endian, ULID};
