//! Content hashing and hex rendering of addresses.
//!
//! An object's address is the SHA-1 digest of its uncompressed framed
//! bytes, rendered as 40 lowercase hex characters. The digest itself is
//! computed by the `sha1` crate and only named here; the hex rendering
//! is specified exactly.

use vstd::prelude::*;

use sha1::{Digest, Sha1};

verus! {

/// The 20-byte SHA-1 digest of a byte sequence. The algorithm takes
/// pages to state, so the result is only named: it is a function of
/// the input bytes alone.
pub uninterp spec fn sha1_of(data: Seq<u8>) -> Seq<u8>;

/// Relies on the `sha1` crate's `Digest::digest`: the SHA-1 digest of
/// the input, always 20 bytes, depending on the input bytes alone.
#[verifier::external_body]
pub(crate) fn sha1_digest(data: &[u8]) -> (r: Vec<u8>)
    ensures
        r@ == sha1_of(data@),
        r@.len() == 20,
{
    Sha1::digest(data).to_vec()
}

/// The lowercase hex character (as an ASCII byte) of a value below 16.
pub open spec fn hex_digit(n: nat) -> u8 {
    if n < 10 {
        (48 + n) as u8
    } else {
        (87 + n) as u8
    }
}

/// The lowercase hex rendering of a byte sequence: two characters per
/// byte, high nibble first.
pub open spec fn hex_of(data: Seq<u8>) -> Seq<u8>
    decreases data.len(),
{
    if data.len() == 0 {
        Seq::empty()
    } else {
        hex_of(data.drop_last()) + seq![
            hex_digit((data.last() / 16) as nat),
            hex_digit((data.last() % 16) as nat),
        ]
    }
}

/// Relies on `hex::encode`: each input byte becomes exactly two
/// lowercase hex digits, high nibble first.
#[verifier::external_body]
pub(crate) fn hex_encode(data: &[u8]) -> (r: Vec<u8>)
    ensures
        r@ == hex_of(data@),
{
    hex::encode(data).into_bytes()
}

/// The byte is a lowercase hex character: `'0'`..`'9'` or `'a'`..`'f'`.
pub open spec fn is_hex_lower(b: u8) -> bool {
    (48 <= b && b <= 57) || (97 <= b && b <= 102)
}

/// A hex rendering is twice as long as its input and consists of
/// lowercase hex characters only.
pub proof fn lemma_hex_of_shape(data: Seq<u8>)
    ensures
        hex_of(data).len() == 2 * data.len(),
        forall|i: int| 0 <= i < hex_of(data).len() ==> is_hex_lower(hex_of(data)[i]),
    decreases data.len(),
{
    if data.len() > 0 {
        lemma_hex_of_shape(data.drop_last());
        let prefix = hex_of(data.drop_last());
        assert forall|i: int| 0 <= i < hex_of(data).len() implies is_hex_lower(
            hex_of(data)[i],
        ) by {
            if i < prefix.len() {
                assert(hex_of(data)[i] == prefix[i]);
            } else {
                assert(data.last() / 16 < 16 && data.last() % 16 < 16);
            }
        }
    }
}

/// Hex rendering is injective: equal renderings come from equal bytes.
pub proof fn lemma_hex_of_injective(d1: Seq<u8>, d2: Seq<u8>)
    requires
        hex_of(d1) == hex_of(d2),
    ensures
        d1 == d2,
    decreases d1.len(),
{
    lemma_hex_of_shape(d1);
    lemma_hex_of_shape(d2);
    if d1.len() == 0 {
        assert(d1 =~= d2);
    } else {
        let p1 = hex_of(d1.drop_last());
        let p2 = hex_of(d2.drop_last());
        lemma_hex_of_shape(d1.drop_last());
        lemma_hex_of_shape(d2.drop_last());
        assert(p1 =~= hex_of(d1).subrange(0, p1.len() as int));
        assert(p2 =~= hex_of(d2).subrange(0, p2.len() as int));
        lemma_hex_of_injective(d1.drop_last(), d2.drop_last());
        let b1 = d1.last();
        let b2 = d2.last();
        assert(hex_of(d1)[p1.len() as int] == hex_digit((b1 / 16) as nat));
        assert(hex_of(d2)[p2.len() as int] == hex_digit((b2 / 16) as nat));
        assert(hex_of(d1)[p1.len() as int + 1] == hex_digit((b1 % 16) as nat));
        assert(hex_of(d2)[p2.len() as int + 1] == hex_digit((b2 % 16) as nat));
        assert(b1 / 16 == b2 / 16 && b1 % 16 == b2 % 16);
        assert(b1 == b2) by (nonlinear_arith)
            requires
                b1 / 16 == b2 / 16,
                b1 % 16 == b2 % 16,
        ;
        assert(d1 =~= d1.drop_last().push(b1));
        assert(d2 =~= d2.drop_last().push(b2));
        assert(d1 == d2);
    }
}

} // verus!
