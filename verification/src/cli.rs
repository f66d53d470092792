//! The run's configuration as plain values, and thread-count validation.

use vstd::prelude::*;
use vstd::string::StringSliceAdditionalSpecFns;
use crate::digits::{all_bytes_digits, all_digits, digits_val, parse_usize, strip_plus};

verus! {

/// The run's configuration: input directory, output directory, and the
/// optional explicit worker count.
#[derive(Debug)]
pub struct Args {
    pub input: String,
    pub output: String,
    pub threads: Option<usize>,
}

/// The rejection message owed for a thread-count text that is not a
/// positive integer: standard integer parsing's own wording for empty
/// input, a stray byte, and overflow, and a message of this tool's own
/// for an explicit zero.
pub open spec fn thread_count_error(raw: Seq<u8>) -> Seq<char> {
    let b = strip_plus(raw);
    if raw.len() == 0 {
        "Not a valid number: cannot parse integer from empty string"@
    } else if b.len() == 0 || !all_digits(b) {
        "Not a valid number: invalid digit found in string"@
    } else if digits_val(b) > usize::MAX {
        "Not a valid number: number too large to fit in target type"@
    } else {
        "Must be a positive integer"@
    }
}

/// Validates a thread-count request: accepts exactly the texts that name
/// a representable positive number (digits with one optional leading
/// plus sign), and rejects zero, empty, stray-byte and overflowing text,
/// each with its own message.
pub fn parse_usize_positive(s: &str) -> (r: Result<usize, String>)
    ensures
        ({
            let b = strip_plus(s.spec_bytes());
            &&& (r.is_ok() <==> (b.len() > 0 && all_digits(b) && 0 < digits_val(b) <= usize::MAX))
            &&& (r matches Ok(n) ==> n == digits_val(b) && n > 0)
            &&& (r matches Err(m) ==> m@ == thread_count_error(s.spec_bytes()))
        }),
{
    let bytes = s.as_bytes();
    if bytes.len() == 0 {
        return Err("Not a valid number: cannot parse integer from empty string".to_owned());
    }
    let digits: &[u8] = if bytes[0] == 43 {
        vstd::slice::slice_subrange(bytes, 1, bytes.len())
    } else {
        bytes
    };
    proof {
        assert(digits@ =~= strip_plus(s.spec_bytes()));
    }
    if digits.len() == 0 || !all_bytes_digits(digits) {
        return Err("Not a valid number: invalid digit found in string".to_owned());
    }
    match parse_usize(digits) {
        Some(0) => Err("Must be a positive integer".to_owned()),
        Some(n) => Ok(n),
        None => Err("Not a valid number: number too large to fit in target type".to_owned()),
    }
}

} // verus!
