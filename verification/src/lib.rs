//! A minimal content-addressable object store.
//!
//! A payload of arbitrary bytes is framed with an ASCII header
//! (`"blob <length>\0"`), addressed by the SHA-1 digest of the framed
//! bytes rendered as 40 lowercase hex characters, and persisted as the
//! zlib-compressed framed bytes. Retrieval decompresses, parses the
//! header, and checks the declared length against the payload actually
//! present.

pub mod bootstrap;
pub mod codec;
pub mod digest;
pub mod digits;
pub mod error;
pub mod framer;
pub mod store;

pub use error::Error;
