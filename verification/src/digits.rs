//! Decimal numerals over ASCII bytes.
//!
//! The object header carries the payload length as a decimal numeral in
//! ASCII. This module renders a `u64` as its canonical numeral and
//! parses a digit string back, each against a small mathematical model.

use vstd::prelude::*;

verus! {

/// The byte is an ASCII decimal digit (`'0'` through `'9'`).
pub open spec fn is_digit(b: u8) -> bool {
    48 <= b && b <= 57
}

/// Every byte of `s` is an ASCII decimal digit.
pub open spec fn all_digits(s: Seq<u8>) -> bool {
    forall|i: int| 0 <= i < s.len() ==> is_digit(s[i])
}

/// The numeric value of one digit byte; zero for a byte below `'0'`,
/// so that the function is total.
pub open spec fn digit_val(b: u8) -> nat {
    if b >= 48 {
        (b - 48) as nat
    } else {
        0
    }
}

/// The canonical decimal numeral of `n`, most significant digit first:
/// no leading zeros, and `0` itself is the single byte `'0'`.
pub open spec fn dec_rep(n: nat) -> Seq<u8>
    decreases n,
{
    if n < 10 {
        seq![(48 + n) as u8]
    } else {
        dec_rep(n / 10).push((48 + n % 10) as u8)
    }
}

/// The value denoted by a digit string, most significant digit first.
/// Leading zeros are allowed and do not change the value.
pub open spec fn digits_value(s: Seq<u8>) -> nat
    decreases s.len(),
{
    if s.len() == 0 {
        0
    } else {
        digits_value(s.drop_last()) * 10 + digit_val(s.last())
    }
}

/// The canonical numeral consists of digits only and is never empty.
pub proof fn lemma_dec_rep_digits(n: nat)
    ensures
        all_digits(dec_rep(n)),
        dec_rep(n).len() >= 1,
    decreases n,
{
    if n >= 10 {
        lemma_dec_rep_digits(n / 10);
        assert forall|i: int| 0 <= i < dec_rep(n).len() implies is_digit(dec_rep(n)[i]) by {
            if i < dec_rep(n / 10).len() {
                assert(dec_rep(n)[i] == dec_rep(n / 10)[i]);
            }
        }
    }
}

/// Rendering then evaluating a numeral gives back the number.
pub proof fn lemma_dec_rep_value(n: nat)
    ensures
        digits_value(dec_rep(n)) == n,
    decreases n,
{
    if n < 10 {
        assert(dec_rep(n).drop_last() =~= Seq::<u8>::empty());
        assert(digits_value(Seq::<u8>::empty()) == 0);
        assert(dec_rep(n).last() == (48 + n) as u8);
        assert(digit_val((48 + n) as u8) == n);
    } else {
        lemma_dec_rep_value(n / 10);
        assert(dec_rep(n).drop_last() =~= dec_rep(n / 10));
        assert(dec_rep(n).last() == (48 + n % 10) as u8);
        assert(digit_val((48 + n % 10) as u8) == n % 10);
        assert(digits_value(dec_rep(n)) == (n / 10) * 10 + n % 10);
        assert(n == (n / 10) * 10 + n % 10) by (nonlinear_arith);
    }
}

/// A digit string's value only grows as the string is extended:
/// the value of any prefix is bounded by the value of the whole.
pub proof fn lemma_digits_value_prefix_le(s: Seq<u8>, j: int)
    requires
        0 <= j <= s.len(),
    ensures
        digits_value(s.take(j)) <= digits_value(s),
    decreases s.len() - j,
{
    if j < s.len() {
        lemma_digits_value_prefix_le(s, j + 1);
        assert(s.take(j + 1).drop_last() =~= s.take(j));
        assert(s.take(j + 1).last() == s[j]);
        assert(digits_value(s.take(j)) <= digits_value(s.take(j)) * 10 + digit_val(s[j]));
    } else {
        assert(s.take(j) =~= s);
    }
}

/// Renders `n` as its canonical decimal numeral.
pub fn u64_to_dec(n: u64) -> (r: Vec<u8>)
    ensures
        r@ == dec_rep(n as nat),
    decreases n,
{
    if n < 10 {
        let mut v: Vec<u8> = Vec::new();
        v.push(48 + n as u8);
        proof {
            assert(v@ =~= dec_rep(n as nat));
        }
        v
    } else {
        let mut v = u64_to_dec(n / 10);
        v.push(48 + (n % 10) as u8);
        proof {
            assert((n / 10) as nat == (n as nat) / 10);
            assert((n % 10) as nat == (n as nat) % 10);
            assert(v@ =~= dec_rep(n as nat));
        }
        v
    }
}

/// Parses a digit string as a `u64`. Returns the denoted value exactly
/// when the string is non-empty, consists of digits only, and its value
/// fits in a `u64`; returns `None` otherwise.
pub fn parse_dec(s: &[u8]) -> (r: Option<u64>)
    ensures
        match r {
            Some(v) => s@.len() > 0 && all_digits(s@) && v as nat == digits_value(s@),
            None => s@.len() == 0 || !all_digits(s@) || digits_value(s@) > u64::MAX,
        },
{
    if s.len() == 0 {
        return None;
    }
    let ghost sq = s@;
    let mut acc: u64 = 0;
    let mut i: usize = 0;
    while i < s.len()
        invariant
            0 <= i <= sq.len(),
            sq == s@,
            all_digits(sq.take(i as int)),
            acc as nat == digits_value(sq.take(i as int)),
        decreases sq.len() - i,
    {
        let b = s[i];
        if b < 48 || b > 57 {
            assert(!is_digit(sq[i as int]));
            return None;
        }
        let d: u64 = (b - 48) as u64;
        proof {
            assert(sq.take(i as int + 1).drop_last() =~= sq.take(i as int));
            assert(sq.take(i as int + 1).last() == sq[i as int]);
        }
        if acc > (u64::MAX - d) / 10 {
            proof {
                assert(acc * 10 + d > u64::MAX) by (nonlinear_arith)
                    requires
                        acc > (u64::MAX - d) / 10,
                        d <= 9,
                        acc <= u64::MAX,
                ;
                assert(digits_value(sq.take(i as int + 1)) == acc * 10 + d);
                lemma_digits_value_prefix_le(sq, i as int + 1);
            }
            return None;
        }
        proof {
            assert(acc * 10 + d <= u64::MAX) by (nonlinear_arith)
                requires
                    acc <= (u64::MAX - d) / 10,
                    d <= 9,
            ;
        }
        acc = acc * 10 + d;
        i = i + 1;
    }
    proof {
        assert(sq.take(sq.len() as int) =~= sq);
    }
    Some(acc)
}

} // verus!
