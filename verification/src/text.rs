//! ASCII text carried between byte form and `String` form, and the
//! grammar of a price field.

use vstd::prelude::*;
use crate::digits::{all_digits, is_digit, byte_is_digit};

verus! {

/// The sequence of characters named by a sequence of ASCII bytes.
pub open spec fn ascii_str(bs: Seq<u8>) -> Seq<char> {
    bs.map(|i: int, b: u8| b as char)
}

/// Every byte of the sequence is ASCII.
pub open spec fn all_ascii(bs: Seq<u8>) -> bool {
    forall|i: int| 0 <= i < bs.len() ==> #[trigger] bs[i] < 128
}

/// Relies on `String::from_utf8`: ASCII bytes decode to the string of
/// exactly the corresponding characters (ASCII is one byte per character).
#[verifier::external_body]
pub fn ascii_to_string(v: Vec<u8>) -> (r: String)
    requires
        all_ascii(v@),
    ensures
        r@ == ascii_str(v@),
{
    match String::from_utf8(v) {
        Ok(s) => s,
        Err(_) => String::new(),
    }
}

/// Digit bytes, optionally followed by one decimal point (`46`) and
/// further digit bytes.
pub open spec fn digits_then_fraction(s: Seq<u8>) -> bool
    decreases s.len(),
{
    if s.len() == 0 {
        true
    } else if is_digit(s[0]) {
        digits_then_fraction(s.skip(1))
    } else if s[0] == 46 {
        all_digits(s.skip(1))
    } else {
        false
    }
}

/// Some byte of the sequence is an ASCII digit.
pub open spec fn has_digit(s: Seq<u8>) -> bool {
    exists|i: int| 0 <= i < s.len() && is_digit(#[trigger] s[i])
}

/// A price field: an optional sign (`43` is `+`, `45` is `-`), then digits
/// with at most one decimal point and at least one digit.
///
/// This grammar is a deliberate decision: a fixed-layout price column
/// holds plain finite decimals, so scientific notation (`1.5e3`) and the
/// textual forms of infinities and not-a-number, which a general
/// floating-point reader would also accept, are rejected as malformed
/// here and fail the row's file.
pub open spec fn is_price_text(s: Seq<u8>) -> bool {
    let b = if s.len() > 0 && (s[0] == 43 || s[0] == 45) {
        s.skip(1)
    } else {
        s
    };
    digits_then_fraction(b) && has_digit(b)
}

/// A leading run of digits does not change whether the text reads as
/// digits-then-fraction.
proof fn lemma_digits_then_fraction_skip(s: Seq<u8>, j: int)
    requires
        0 <= j <= s.len(),
        forall|k: int| 0 <= k < j ==> is_digit(#[trigger] s[k]),
    ensures
        digits_then_fraction(s) == digits_then_fraction(s.skip(j)),
    decreases j,
{
    if j > 0 {
        assert(s.skip(1).skip(j - 1) =~= s.skip(j));
        lemma_digits_then_fraction_skip(s.skip(1), j - 1);
    } else {
        assert(s.skip(0) =~= s);
    }
}

/// Whether the byte text is a well-formed price field.
pub fn check_price_text(s: &[u8]) -> (r: bool)
    ensures
        r == is_price_text(s@),
{
    let ghost b: Seq<u8> = if s@.len() > 0 && (s@[0] == 43 || s@[0] == 45) {
        s@.skip(1)
    } else {
        s@
    };
    let mut i: usize = 0;
    if s.len() > 0 && (s[0] == 43 || s[0] == 45) {
        i = 1;
    }
    let start: usize = i;
    proof {
        assert(b =~= s@.skip(start as int));
    }
    let mut seen_digit = false;
    while i < s.len() && byte_is_digit(s[i])
        invariant
            start <= i <= s@.len(),
            b == s@.skip(start as int),
            forall|k: int| 0 <= k < i - start ==> is_digit(#[trigger] b[k]),
            seen_digit == has_digit(b.take(i - start)),
        decreases s@.len() - i,
    {
        proof {
            assert(b[i - start] == s@[i as int]);
            assert(b.take(i + 1 - start).last() == b[i - start]);
            assert(b.take(i + 1 - start).drop_last() =~= b.take(i - start));
            assert(has_digit(b.take(i + 1 - start))) by {
                assert(is_digit(b.take(i + 1 - start)[i - start]));
            }
        }
        seen_digit = true;
        i += 1;
    }
    proof {
        lemma_digits_then_fraction_skip(b, i - start);
    }
    if i < s.len() {
        if s[i] != 46 {
            proof {
                assert(b.skip(i - start)[0] == s@[i as int]);
                assert(!digits_then_fraction(b.skip(i - start)));
            }
            return false;
        }
        proof {
            assert(b.skip(i - start)[0] == 46);
            assert(digits_then_fraction(b.skip(i - start)) == all_digits(
                b.skip(i - start).skip(1),
            ));
            assert(b.skip(i - start).skip(1) =~= b.skip(i + 1 - start));
        }
        i += 1;
        let ghost fi: int = i - start;
        let mut all_frac = true;
        while i < s.len()
            invariant
                start <= fi <= i - start <= s@.len() - start,
                i <= s@.len(),
                b == s@.skip(start as int),
                all_frac ==> forall|k: int| fi <= k < i - start ==> is_digit(#[trigger] b[k]),
                !all_frac ==> !all_digits(b.skip(fi)),
                all_frac ==> (seen_digit == has_digit(b.take(i - start))),
            decreases s@.len() - i,
        {
            if all_frac {
                if byte_is_digit(s[i]) {
                    proof {
                        assert(b[i - start] == s@[i as int]);
                        assert(has_digit(b.take(i + 1 - start))) by {
                            assert(is_digit(b.take(i + 1 - start)[i - start]));
                        }
                    }
                    seen_digit = true;
                } else {
                    proof {
                        assert(b.skip(fi)[i - start - fi] == s@[i as int]);
                        assert(!all_digits(b.skip(fi)));
                    }
                    all_frac = false;
                }
            }
            i += 1;
        }
        if !all_frac {
            return false;
        }
        proof {
            assert(all_digits(b.skip(fi))) by {
                assert(forall|k: int| 0 <= k < b.skip(fi).len() ==> is_digit(
                    #[trigger] b.skip(fi)[k],
                ));
            }
            assert(b.take(s@.len() - start) =~= b);
        }
        seen_digit
    } else {
        proof {
            assert(b.skip(i - start).len() == 0);
            assert(digits_then_fraction(b));
            assert(b.take(i - start) =~= b);
        }
        seen_digit
    }
}

} // verus!
