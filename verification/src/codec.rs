//! The compression codec.
//!
//! Stored objects are zlib-compressed. Compression is done by `flate2`
//! at its default level and only named: for a fixed level it is a
//! function of the input bytes alone. Decompression is its inverse.

use vstd::prelude::*;

use std::io::{Read, Write};

verus! {

/// The zlib-compressed form of a byte sequence at the codec's fixed
/// default compression level. The algorithm takes pages to state, so
/// the result is only named: it is a function of the input bytes alone.
pub uninterp spec fn deflate_of(data: Seq<u8>) -> Seq<u8>;

/// Relies on `flate2::write::ZlibEncoder` at the default compression
/// level: the compressed form of the input, a function of the input
/// bytes alone. Writing into a `Vec` sink cannot fail.
#[verifier::external_body]
pub(crate) fn zlib_compress(data: &[u8]) -> (r: Vec<u8>)
    ensures
        r@ == deflate_of(data@),
{
    let mut enc = flate2::write::ZlibEncoder::new(Vec::new(), flate2::Compression::default());
    enc.write_all(data).expect("a Vec sink accepts every write");
    enc.finish().expect("a Vec sink accepts every write")
}

/// Relies on `flate2::read::ZlibDecoder`: zlib is lossless, so
/// decompressing the compressed form of any byte sequence yields that
/// sequence again; malformed or truncated input is reported as an
/// error, never returned as bytes.
#[verifier::external_body]
pub(crate) fn zlib_decompress(data: &[u8]) -> (r: Option<Vec<u8>>)
    ensures
        match r {
            Some(v) => forall|b: Seq<u8>| data@ == deflate_of(b) ==> v@ == b,
            None => forall|b: Seq<u8>| data@ != deflate_of(b),
        },
{
    let mut dec = flate2::read::ZlibDecoder::new(data);
    let mut out = Vec::new();
    match dec.read_to_end(&mut out) {
        Ok(_) => Some(out),
        Err(_) => None,
    }
}

} // verus!
