//! An inlinable array of bytes intended for situations where many short byte
//! strings are shared, compared and hashed, and space matters.
//!
//! An [`InlineArray`] logically is an immutable sequence of bytes. Payloads of
//! up to seven bytes are kept inline in the value itself; longer payloads are
//! kept in a shared, reference-counted heap buffer. The reference counter is
//! deliberately narrow (one byte for buffers of up to 255 bytes, two bytes
//! beyond that); when it saturates, a clone falls back to copying the payload
//! into a fresh buffer with a fresh counter. Buffer lengths must fit in the
//! six-byte little-endian length field of the big-buffer header.
//!
//! [`InlineArray::make_mut`] hands out a mutable view of the bytes; when the
//! buffer is shared it first privatizes the payload, copy-on-write style.

mod array;
pub mod len48;
pub mod order;
mod remote;

pub use array::Error;
pub use array::_static_tests;
pub use array::bytes_hash64;
pub use array::hash_bytes;
pub use array::InlineArray;
pub use array::Kind;
pub use remote::BigRemoteHeader;
pub use remote::SmallRemoteTrailer;
