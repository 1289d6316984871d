//! The error taxonomy of the object store.

use vstd::prelude::*;

verus! {

/// Every failure the store can report, one variant per stage:
/// - `NotFound`: no object file exists for the requested address.
/// - `Framing`: the decompressed bytes are not a well-formed header
///   (missing NUL, missing space, unknown kind token, bad length digits).
/// - `SizeMismatch`: the payload length differs from the declared header length.
/// - `Codec`: the stored bytes are not a valid compressed stream.
/// - `Io`: an underlying filesystem operation failed.
/// - `Argument`: a caller-supplied address or flag is malformed.
#[derive(Clone, Copy, Debug, PartialEq, Eq, Structural)]
pub enum Error {
    NotFound,
    Framing,
    SizeMismatch,
    Codec,
    Io,
    Argument,
}

} // verus!
