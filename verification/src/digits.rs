//! Decimal digit text: recognition and unsigned integer parsing.

use vstd::prelude::*;

verus! {

/// A byte is an ASCII decimal digit.
pub open spec fn is_digit(b: u8) -> bool {
    48 <= b <= 57
}

/// Numeric value of an ASCII digit byte.
pub open spec fn digit_val(b: u8) -> int {
    b - 48
}

/// Every byte of the sequence is an ASCII digit.
pub open spec fn all_digits(s: Seq<u8>) -> bool {
    forall|i: int| 0 <= i < s.len() ==> is_digit(#[trigger] s[i])
}

/// Value of a digit sequence read as a base-10 number (0 for the empty sequence).
pub open spec fn digits_val(s: Seq<u8>) -> int
    decreases s.len(),
{
    if s.len() == 0 {
        0
    } else {
        digits_val(s.drop_last()) * 10 + digit_val(s.last())
    }
}

/// The text with one leading plus sign (`43`) removed, if present: the
/// sign that standard integer parsing accepts before the digits.
pub open spec fn strip_plus(s: Seq<u8>) -> Seq<u8> {
    if s.len() > 0 && s[0] == 43 {
        s.skip(1)
    } else {
        s
    }
}

/// Whether a byte is an ASCII decimal digit.
pub fn byte_is_digit(b: u8) -> (r: bool)
    ensures
        r == is_digit(b),
{
    48 <= b && b <= 57
}

/// Whether every byte of the text is an ASCII digit.
pub fn all_bytes_digits(s: &[u8]) -> (r: bool)
    ensures
        r == all_digits(s@),
{
    let mut i: usize = 0;
    while i < s.len()
        invariant
            0 <= i <= s@.len(),
            forall|j: int| 0 <= j < i ==> is_digit(#[trigger] s@[j]),
        decreases s@.len() - i,
    {
        if !byte_is_digit(s[i]) {
            return false;
        }
        i += 1;
    }
    true
}

/// The value of a digit string is never negative.
pub proof fn lemma_digits_val_nonneg(s: Seq<u8>)
    requires
        all_digits(s),
    ensures
        digits_val(s) >= 0,
    decreases s.len(),
{
    if s.len() > 0 {
        assert(all_digits(s.drop_last()));
        lemma_digits_val_nonneg(s.drop_last());
    }
}

/// The value of a prefix of a digit string never exceeds the value of the whole.
pub proof fn lemma_digits_val_prefix_le(s: Seq<u8>, i: int)
    requires
        all_digits(s),
        0 <= i <= s.len(),
    ensures
        digits_val(s.take(i)) <= digits_val(s),
    decreases s.len() - i,
{
    if i < s.len() {
        assert(s.take(i + 1).drop_last() =~= s.take(i));
        assert(s.take(i + 1).last() == s[i]);
        assert(all_digits(s.take(i)));
        lemma_digits_val_nonneg(s.take(i));
        assert(digits_val(s.take(i + 1)) == digits_val(s.take(i)) * 10 + digit_val(s[i]));
        assert(digits_val(s.take(i)) * 10 >= digits_val(s.take(i)));
        lemma_digits_val_prefix_le(s, i + 1);
    } else {
        assert(s.take(i) =~= s);
    }
}

/// Parses a non-empty all-digit byte string as a base-10 `u64`.
/// Returns `None` exactly when the text is empty, holds a non-digit byte,
/// or names a value too large for `u64`.
pub fn parse_u64(s: &[u8]) -> (r: Option<u64>)
    ensures
        r.is_some() <==> (s@.len() > 0 && all_digits(s@) && digits_val(s@) <= u64::MAX),
        r matches Some(v) ==> v == digits_val(s@),
{
    if s.len() == 0 {
        return None;
    }
    let mut acc: u64 = 0;
    let mut i: usize = 0;
    while i < s.len()
        invariant
            0 <= i <= s@.len(),
            all_digits(s@.take(i as int)),
            acc == digits_val(s@.take(i as int)),
        decreases s@.len() - i,
    {
        let b = s[i];
        if !byte_is_digit(b) {
            assert(!all_digits(s@));
            return None;
        }
        let d: u64 = (b - 48) as u64;
        let next = match acc.checked_mul(10) {
            Some(x) => x.checked_add(d),
            None => None,
        };
        proof {
            assert(s@.take(i + 1).drop_last() =~= s@.take(i as int));
            assert(s@.take(i + 1).last() == s@[i as int]);
        }
        match next {
            Some(v) => {
                acc = v;
            }
            None => {
                proof {
                    if all_digits(s@) && digits_val(s@) <= u64::MAX {
                        lemma_digits_val_prefix_le(s@, i + 1);
                        assert(digits_val(s@.take(i + 1)) > u64::MAX);
                    }
                }
                return None;
            }
        }
        i += 1;
    }
    proof {
        assert(s@.take(s@.len() as int) =~= s@);
    }
    Some(acc)
}

/// Parses a non-empty all-digit byte string as a base-10 `usize`.
/// Returns `None` exactly when the text is empty, holds a non-digit byte,
/// or names a value too large for `usize`.
pub fn parse_usize(s: &[u8]) -> (r: Option<usize>)
    ensures
        r.is_some() <==> (s@.len() > 0 && all_digits(s@) && digits_val(s@) <= usize::MAX),
        r matches Some(v) ==> v == digits_val(s@),
{
    if s.len() == 0 {
        return None;
    }
    let mut acc: usize = 0;
    let mut i: usize = 0;
    while i < s.len()
        invariant
            0 <= i <= s@.len(),
            all_digits(s@.take(i as int)),
            acc == digits_val(s@.take(i as int)),
        decreases s@.len() - i,
    {
        let b = s[i];
        if !byte_is_digit(b) {
            assert(!all_digits(s@));
            return None;
        }
        let d: usize = (b - 48) as usize;
        let next = match acc.checked_mul(10) {
            Some(x) => x.checked_add(d),
            None => None,
        };
        proof {
            assert(s@.take(i + 1).drop_last() =~= s@.take(i as int));
            assert(s@.take(i + 1).last() == s@[i as int]);
        }
        match next {
            Some(v) => {
                acc = v;
            }
            None => {
                proof {
                    if all_digits(s@) && digits_val(s@) <= usize::MAX {
                        lemma_digits_val_prefix_le(s@, i + 1);
                        assert(digits_val(s@.take(i + 1)) > usize::MAX);
                    }
                }
                return None;
            }
        }
        i += 1;
    }
    proof {
        assert(s@.take(s@.len() as int) =~= s@);
    }
    Some(acc)
}

} // verus!
