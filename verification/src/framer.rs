//! The on-disk object frame.
//!
//! A stored object, before compression, is an ASCII header followed by
//! the raw payload: `"blob <length>\0<payload>"`. This module builds
//! the header, parses it back out of arbitrary bytes, and proves that
//! the two directions compose.

use vstd::prelude::*;

use crate::digits::{
    all_digits, dec_rep, digits_value, is_digit, lemma_dec_rep_digits, lemma_dec_rep_value,
    parse_dec, u64_to_dec,
};
use crate::error::Error;

verus! {

/// The kinds of object the store understands. Only opaque payload
/// bytes (`Blob`) are defined; the tag keeps the frame extensible.
#[derive(Clone, Copy, Debug, PartialEq, Eq, Structural)]
pub enum Kind {
    Blob,
}

/// The ASCII tag of a kind, as it stands in the header.
pub open spec fn kind_tag(k: Kind) -> Seq<u8> {
    match k {
        Kind::Blob => seq![98u8, 108u8, 111u8, 98u8],
    }
}

/// The header bytes for a kind and a payload length:
/// the tag, one space, the decimal numeral, one NUL.
pub open spec fn header_of(k: Kind, len: nat) -> Seq<u8> {
    kind_tag(k) + seq![32u8] + dec_rep(len) + seq![0u8]
}

/// The full frame of a payload: a blob header, then the payload bytes.
pub open spec fn framed(p: Seq<u8>) -> Seq<u8> {
    header_of(Kind::Blob, p.len()) + p
}

/// `d` begins with a well-formed blob header whose NUL terminator
/// stands at index `end - 1`: the five bytes `"blob "`, then at least
/// one decimal digit, then the first NUL of `d`, and the digits denote
/// a value that fits in a `u64`.
pub open spec fn header_shape(d: Seq<u8>, end: int) -> bool {
    &&& 7 <= end <= d.len()
    &&& d.subrange(0, 5) == kind_tag(Kind::Blob) + seq![32u8]
    &&& d[end - 1] == 0
    &&& forall|j: int| 0 <= j < end - 1 ==> d[j] != 0
    &&& all_digits(d.subrange(5, end - 1))
    &&& digits_value(d.subrange(5, end - 1)) <= u64::MAX
}

/// `d` begins with some well-formed blob header.
pub open spec fn wf_header(d: Seq<u8>) -> bool {
    exists|end: int| header_shape(d, end)
}

/// The index just past the header's NUL terminator.
pub open spec fn header_end(d: Seq<u8>) -> int {
    choose|end: int| header_shape(d, end)
}

/// The payload length the header declares.
pub open spec fn header_len(d: Seq<u8>) -> nat {
    digits_value(d.subrange(5, header_end(d) - 1))
}

/// The bytes that follow the header.
pub open spec fn object_payload(d: Seq<u8>) -> Seq<u8> {
    d.subrange(header_end(d), d.len() as int)
}

/// A header's terminator is the first NUL of the sequence, so any two
/// well-formed readings of the same bytes agree on where the header ends.
pub proof fn lemma_header_shape_unique(d: Seq<u8>, e1: int, e2: int)
    requires
        header_shape(d, e1),
        header_shape(d, e2),
    ensures
        e1 == e2,
{
    if e1 < e2 {
        assert(d[e1 - 1] == 0);
        assert(d[e1 - 1] != 0);
    }
    if e2 < e1 {
        assert(d[e2 - 1] == 0);
        assert(d[e2 - 1] != 0);
    }
}

/// Builds the header bytes for a kind and a payload length.
pub fn encode_header(kind: Kind, len: u64) -> (r: Vec<u8>)
    ensures
        r@ == header_of(kind, len as nat),
{
    let mut v: Vec<u8> = Vec::new();
    v.push(98);
    v.push(108);
    v.push(111);
    v.push(98);
    v.push(32);
    let mut digits = u64_to_dec(len);
    v.append(&mut digits);
    v.push(0);
    proof {
        assert(v@ =~= header_of(kind, len as nat));
    }
    v
}

/// Parses the header at the front of `data`.
///
/// Succeeds exactly on bytes of `header_shape`, returning the kind, the
/// declared payload length, and the index just past the header's NUL;
/// every malformed header (no NUL, wrong or unknown kind tag, no digit,
/// a non-digit byte, a value too large for `u64`) is a framing error.
pub fn parse_header(data: &[u8]) -> (r: Result<(Kind, u64, usize), Error>)
    ensures
        match r {
            Ok((kind, len, end)) => {
                &&& header_shape(data@, end as int)
                &&& kind == Kind::Blob
                &&& len as nat == digits_value(data@.subrange(5, end as int - 1))
            },
            Err(e) => e == Error::Framing && !wf_header(data@),
        },
{
    let ghost d = data@;
    let n = data.len();
    let mut z: usize = 0;
    while z < n && data[z] != 0
        invariant
            0 <= z <= n,
            n == d.len(),
            d == data@,
            forall|j: int| 0 <= j < z ==> d[j] != 0,
        decreases n - z,
    {
        z = z + 1;
    }
    if z == n {
        proof {
            assert forall|end: int| !header_shape(d, end) by {
                if header_shape(d, end) {
                    assert(d[end - 1] == 0);
                }
            }
        }
        return Err(Error::Framing);
    }
    assert(d[z as int] == 0);
    assert forall|end: int| header_shape(d, end) implies end == z + 1 by {
        if end - 1 < z as int {
            assert(d[end - 1] != 0);
        }
        if end - 1 > z as int {
            assert(d[z as int] != 0);
        }
    }
    if z < 6 {
        assert(forall|end: int| !header_shape(d, end));
        return Err(Error::Framing);
    }
    if !(data[0] == 98 && data[1] == 108 && data[2] == 111 && data[3] == 98 && data[4] == 32) {
        proof {
            assert forall|end: int| !header_shape(d, end) by {
                if header_shape(d, end) {
                    let tag = kind_tag(Kind::Blob) + seq![32u8];
                    assert(d.subrange(0, 5)[0] == d[0] && tag[0] == 98);
                    assert(d.subrange(0, 5)[1] == d[1] && tag[1] == 108);
                    assert(d.subrange(0, 5)[2] == d[2] && tag[2] == 111);
                    assert(d.subrange(0, 5)[3] == d[3] && tag[3] == 98);
                    assert(d.subrange(0, 5)[4] == d[4] && tag[4] == 32);
                }
            }
        }
        return Err(Error::Framing);
    }
    let digits = vstd::slice::slice_subrange(data, 5, z);
    match parse_dec(digits) {
        Some(len) => {
            proof {
                assert(d.subrange(0, 5) =~= kind_tag(Kind::Blob) + seq![32u8]);
                assert(digits@ == d.subrange(5, z as int));
                assert(header_shape(d, z as int + 1));
            }
            Ok((Kind::Blob, len, z + 1))
        },
        None => {
            proof {
                assert forall|end: int| !header_shape(d, end) by {
                    if header_shape(d, end) {
                        assert(end == z + 1);
                        assert(digits@.len() > 0 && all_digits(digits@) && digits_value(
                            digits@,
                        ) <= u64::MAX);
                    }
                }
            }
            Err(Error::Framing)
        },
    }
}

/// Parses a whole decompressed object: header, then payload.
///
/// Succeeds exactly when the bytes carry a well-formed header whose
/// declared length equals the number of bytes that follow it, and then
/// returns those payload bytes; a malformed header is a framing error,
/// and a well-formed header whose declared length disagrees with the
/// payload actually present is a size mismatch.
pub fn parse_object(data: &[u8]) -> (r: Result<Vec<u8>, Error>)
    ensures
        r is Ok <==> wf_header(data@) && data@.len() - header_end(data@) == header_len(data@),
        r == Err::<Vec<u8>, Error>(Error::Framing) <==> !wf_header(data@),
        r == Err::<Vec<u8>, Error>(Error::SizeMismatch) <==> wf_header(data@) && data@.len()
            - header_end(data@) != header_len(data@),
        r matches Ok(p) ==> p@ == object_payload(data@) && p@.len() == header_len(data@),
{
    match parse_header(data) {
        Err(e) => Err(e),
        Ok((_kind, len, end)) => {
            proof {
                lemma_header_shape_unique(data@, end as int, header_end(data@));
            }
            let avail = data.len() - end;
            if (avail as u64) != len {
                Err(Error::SizeMismatch)
            } else {
                let payload = vstd::slice::slice_subrange(data, end, data.len());
                Ok(vstd::slice::slice_to_vec(payload))
            }
        },
    }
}

/// The frame of a payload is well formed, declares exactly the
/// payload's length, and carries exactly the payload after its header.
pub proof fn lemma_frame_round_trip(p: Seq<u8>)
    requires
        p.len() <= u64::MAX,
    ensures
        wf_header(framed(p)),
        header_end(framed(p)) == 6 + dec_rep(p.len()).len(),
        header_len(framed(p)) == p.len(),
        object_payload(framed(p)) == p,
        framed(p).len() - header_end(framed(p)) == header_len(framed(p)),
{
    let d = framed(p);
    let hl = 6 + dec_rep(p.len()).len() as int;
    lemma_dec_rep_digits(p.len());
    lemma_dec_rep_value(p.len());
    assert(d.subrange(0, 5) =~= kind_tag(Kind::Blob) + seq![32u8]);
    assert(d.subrange(5, hl - 1) =~= dec_rep(p.len()));
    assert(d[hl - 1] == 0);
    assert forall|j: int| 0 <= j < hl - 1 implies d[j] != 0 by {
        if j >= 5 {
            assert(d[j] == dec_rep(p.len())[j - 5]);
            assert(is_digit(dec_rep(p.len())[j - 5]));
        }
    }
    assert(header_shape(d, hl));
    lemma_header_shape_unique(d, hl, header_end(d));
    assert(object_payload(d) =~= p);
}

/// Distinct payloads have distinct frames: the frame determines its
/// payload, because parsing recovers it.
pub proof fn lemma_framed_injective(p1: Seq<u8>, p2: Seq<u8>)
    requires
        p1 != p2,
        p1.len() <= u64::MAX,
        p2.len() <= u64::MAX,
    ensures
        framed(p1) != framed(p2),
{
    if framed(p1) == framed(p2) {
        lemma_frame_round_trip(p1);
        lemma_frame_round_trip(p2);
        assert(p1 == object_payload(framed(p1)));
        assert(p2 == object_payload(framed(p2)));
    }
}

} // verus!
