//! The object store's put/get pipeline and address handling.
//!
//! `put_object` frames a payload, derives its address from the SHA-1
//! digest of the framed bytes, and compresses the framed bytes into
//! the exact file content to persist. `get_object` is the inverse over
//! a stored file's content. Where the files live and how they get
//! there (temporary file, atomic rename) is the caller's concern; this
//! module pins down every byte of what is stored and returned.

use vstd::prelude::*;

use crate::codec::{deflate_of, zlib_compress, zlib_decompress};
use crate::digest::{
    hex_encode, hex_of, is_hex_lower, lemma_hex_of_injective, lemma_hex_of_shape, sha1_digest,
    sha1_of,
};
use crate::error::Error;
use crate::framer::{
    encode_header, framed, lemma_frame_round_trip, lemma_framed_injective, parse_object, Kind,
};

verus! {

/// The address of a payload: the SHA-1 digest of its framed bytes,
/// rendered as 40 lowercase hex characters.
pub open spec fn address_of(p: Seq<u8>) -> Seq<u8> {
    hex_of(sha1_of(framed(p)))
}

/// The file content stored for a payload: its framed bytes, compressed.
pub open spec fn stored_of(p: Seq<u8>) -> Seq<u8> {
    deflate_of(framed(p))
}

/// A well-formed address: exactly 40 lowercase hex characters.
pub open spec fn valid_address(a: Seq<u8>) -> bool {
    a.len() == 40 && forall|i: int| 0 <= i < a.len() ==> is_hex_lower(a[i])
}

/// Stores a payload: returns its address and the exact bytes to
/// persist at the path the address derives. Nothing is written here;
/// the caller places `r.1` at the fan-out path of `r.0`, going through
/// a temporary file so that no partial object ever becomes visible.
pub fn put_object(payload: &[u8]) -> (r: (Vec<u8>, Vec<u8>))
    ensures
        r.0@ == address_of(payload@),
        r.1@ == stored_of(payload@),
        valid_address(r.0@),
{
    let mut frame = encode_header(Kind::Blob, payload.len() as u64);
    let ghost header = frame@;
    let mut i: usize = 0;
    while i < payload.len()
        invariant
            0 <= i <= payload@.len(),
            frame@ == header + payload@.take(i as int),
        decreases payload@.len() - i,
    {
        let b = payload[i];
        frame.push(b);
        proof {
            let ghost k = i as int;
            assert(payload@.take(k + 1) =~= payload@.take(k).push(payload@[k]));
        }
        i = i + 1;
    }
    proof {
        assert(payload@.take(payload@.len() as int) =~= payload@);
        assert(frame@ == framed(payload@));
    }
    let digest = sha1_digest(frame.as_slice());
    let address = hex_encode(digest.as_slice());
    let stored = zlib_compress(frame.as_slice());
    proof {
        lemma_hex_of_shape(digest@);
    }
    (address, stored)
}

/// Retrieves a payload from a stored file's content: decompresses,
/// parses the frame, and checks the declared length against the
/// payload actually present.
///
/// For the content `put_object` stores for a payload, this returns
/// exactly that payload. Whatever the input, a failed decompression is
/// a codec error, a malformed frame a framing error, and a frame whose
/// declared length disagrees with its payload a size mismatch; those
/// are the only failures.
pub fn get_object(stored: &[u8]) -> (r: Result<Vec<u8>, Error>)
    ensures
        forall|p: Seq<u8>|
            stored@ == stored_of(p) && p.len() <= u64::MAX ==> (r matches Ok(q) && q@ == p),
        r matches Err(e) ==> (e == Error::Codec || e == Error::Framing || e
            == Error::SizeMismatch),
{
    match zlib_decompress(stored) {
        None => {
            proof {
                assert forall|p: Seq<u8>| stored@ != stored_of(p) by {
                    assert(stored@ != deflate_of(framed(p)));
                }
            }
            Err(Error::Codec)
        },
        Some(data) => {
            let r = parse_object(data.as_slice());
            proof {
                assert forall|p: Seq<u8>|
                    stored@ == stored_of(p) && p.len() <= u64::MAX implies r matches Ok(q) && q@
                    == p by {
                    assert(stored@ == deflate_of(framed(p)));
                    assert(data@ == framed(p));
                    lemma_frame_round_trip(p);
                }
            }
            match r {
                Ok(payload) => Ok(payload),
                Err(e) => Err(e),
            }
        },
    }
}

/// Splits an address into its fan-out path parts: the first two hex
/// characters name the subdirectory, the remaining 38 the file.
/// Anything but a 40-character lowercase hex string is rejected.
pub fn address_fanout(address: &[u8]) -> (r: Result<(Vec<u8>, Vec<u8>), Error>)
    ensures
        match r {
            Ok(parts) => {
                &&& valid_address(address@)
                &&& parts.0@ == address@.subrange(0, 2)
                &&& parts.1@ == address@.subrange(2, 40)
            },
            Err(e) => e == Error::Argument && !valid_address(address@),
        },
{
    if address.len() != 40 {
        return Err(Error::Argument);
    }
    let mut i: usize = 0;
    while i < 40
        invariant
            0 <= i <= 40,
            address@.len() == 40,
            forall|j: int| 0 <= j < i ==> is_hex_lower(address@[j]),
        decreases 40 - i,
    {
        let b = address[i];
        if !((48 <= b && b <= 57) || (97 <= b && b <= 102)) {
            assert(!is_hex_lower(address@[i as int]));
            return Err(Error::Argument);
        }
        i = i + 1;
    }
    let dir = vstd::slice::slice_to_vec(vstd::slice::slice_subrange(address, 0, 2));
    let file = vstd::slice::slice_to_vec(vstd::slice::slice_subrange(address, 2, 40));
    Ok((dir, file))
}

/// Determinism of addressing: the address and the stored bytes are
/// functions of the payload bytes alone, so storing equal payloads
/// yields the same address, the same file content, and hence the same
/// fan-out path — a second store of the same payload writes the same
/// object to the same place.
pub proof fn lemma_store_deterministic(p1: Seq<u8>, p2: Seq<u8>)
    requires
        p1 == p2,
    ensures
        address_of(p1) == address_of(p2),
        stored_of(p1) == stored_of(p2),
{
}

/// Content addressing: distinct payloads have distinct framed forms,
/// so their addresses can coincide only where SHA-1 maps two distinct
/// byte sequences to the same digest.
pub proof fn lemma_address_collision_needs_digest_collision(p1: Seq<u8>, p2: Seq<u8>)
    requires
        p1 != p2,
        p1.len() <= u64::MAX,
        p2.len() <= u64::MAX,
        address_of(p1) == address_of(p2),
    ensures
        framed(p1) != framed(p2),
        sha1_of(framed(p1)) == sha1_of(framed(p2)),
{
    lemma_framed_injective(p1, p2);
    lemma_hex_of_injective(sha1_of(framed(p1)), sha1_of(framed(p2)));
}

} // verus!
