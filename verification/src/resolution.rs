//! Parsing of step-size strings such as `PT15M`, `PT30M` or `PT60M`.
//!
//! A step size is always a whole number of minutes; hour, day or week
//! granularities are not supported.

use vstd::prelude::*;

use crate::error::EntsoeError;
use crate::text::{all_digits, digit_value, digits_value, is_digit_char};
use crate::text::{lemma_digits_value_nonneg, lemma_digits_value_prefix};

verus! {

/// The digits between the `PT` prefix and the `M` suffix.
pub open spec fn resolution_digits(s: Seq<char>) -> Seq<char> {
    s.subrange(2, s.len() - 1)
}

/// A well-formed step-size string: `PT`, one or more decimal digits whose
/// value fits an `i64`, then `M`.
pub open spec fn valid_resolution(s: Seq<char>) -> bool {
    &&& s.len() >= 4
    &&& s[0] == 'P'
    &&& s[1] == 'T'
    &&& s[s.len() - 1] == 'M'
    &&& all_digits(resolution_digits(s))
    &&& digits_value(resolution_digits(s)) <= i64::MAX
}

/// The number of minutes a valid step-size string denotes.
pub open spec fn resolution_minutes(s: Seq<char>) -> int {
    digits_value(resolution_digits(s))
}

/// Parse a step-size string of the form `PT<minutes>M` into minutes.
pub fn parse_resolution(resolution: &str) -> (r: Result<i64, EntsoeError>)
    ensures
        r is Ok <==> valid_resolution(resolution@),
        r is Ok ==> r->Ok_0 == resolution_minutes(resolution@) && r->Ok_0 >= 0,
        r is Err ==> (r->Err_0 matches EntsoeError::InvalidResolution(m) && m@ == resolution@),
{
    let ghost s = resolution@;
    let n = resolution.unicode_len();
    if n < 4 || resolution.get_char(0) != 'P' || resolution.get_char(1) != 'T'
        || resolution.get_char(n - 1) != 'M' {
        return Err(EntsoeError::InvalidResolution(resolution.to_owned()));
    }
    let mut value: i64 = 0;
    let mut i: usize = 2;
    while i < n - 1
        invariant
            2 <= i <= n - 1,
            4 <= n,
            n == s.len(),
            s == resolution@,
            all_digits(s.subrange(2, i as int)),
            value == digits_value(s.subrange(2, i as int)),
            0 <= value,
        decreases n - i,
    {
        let c = resolution.get_char(i);
        let cv = c as u32;
        if cv < 48 || cv > 57 {
            proof {
                assert(!is_digit_char(s[i as int]));
                assert(!valid_resolution(s)) by {
                    if valid_resolution(s) {
                        assert(is_digit_char(resolution_digits(s)[i - 2]));
                    }
                }
            }
            return Err(EntsoeError::InvalidResolution(resolution.to_owned()));
        }
        let digit = (cv - 48) as i64;
        proof {
            assert(s.subrange(2, i + 1).drop_last() =~= s.subrange(2, i as int));
            assert(digits_value(s.subrange(2, i + 1))
                == digits_value(s.subrange(2, i as int)) * 10 + digit_value(s[i as int]));
        }
        let overflowed: bool = match value.checked_mul(10) {
            Some(v10) => match v10.checked_add(digit) {
                Some(v) => {
                    value = v;
                    false
                },
                None => true,
            },
            None => true,
        };
        if overflowed {
            proof {
                lemma_digits_value_nonneg(s.subrange(2, i as int));
                assert(digits_value(s.subrange(2, i + 1)) > i64::MAX);
                assert(!valid_resolution(s)) by {
                    if valid_resolution(s) {
                        lemma_digits_value_prefix(resolution_digits(s), i - 1);
                        assert(resolution_digits(s).take(i - 1) =~= s.subrange(2, i + 1));
                    }
                }
            }
            return Err(EntsoeError::InvalidResolution(resolution.to_owned()));
        }
        i += 1;
    }
    proof {
        assert(s.subrange(2, (n - 1) as int) =~= resolution_digits(s));
    }
    Ok(value)
}

} // verus!
