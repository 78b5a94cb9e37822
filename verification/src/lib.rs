//! Low-level codec for the PostgreSQL v3 wire protocol.
//!
//! The crate owns message framing, tag dispatch, backend-message parsing,
//! frontend-message serialization, and the binary encoding of the common
//! column types. It performs no I/O: parsers read from a caller-supplied
//! byte slice and serializers append to a caller-owned buffer.
//!
//! All strings on the wire are UTF-8; the caller is responsible for setting
//! the server's `client_encoding` parameter to `UTF8`.
use vstd::prelude::*;

pub mod authentication;
pub mod error;
pub mod message;
pub mod primitives;
pub mod types;

verus! {

/// A Postgres OID: an unsigned 32-bit identifier naming a database object.
pub type Oid = u32;

/// An enum indicating if a value is `NULL` or not.
#[derive(Clone, Copy, Debug, PartialEq, Eq, Structural)]
pub enum IsNull {
    /// The value is `NULL`.
    Yes,
    /// The value is not `NULL`.
    No,
}

} // verus!
