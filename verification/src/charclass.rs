//! Character classes, decided by the `regex` crate.
//!
//! The scanner recognises digits and lowercase letters with the bracketed
//! classes `[0-9]` and `[a-z]`. Matching is done by the regex engine; what
//! the engine answers for such a class is stated here as a contract that the
//! verifier takes on trust.

use regex::Regex;
use vstd::pervasive::unreached;
use vstd::prelude::*;

verus! {

/// Whether `c` is an ASCII letter or an ASCII digit.
pub open spec fn is_ascii_alphanumeric(c: char) -> bool {
    ||| '0' <= c && c <= '9'
    ||| 'A' <= c && c <= 'Z'
    ||| 'a' <= c && c <= 'z'
}

/// Whether `pattern` is a bracketed class of exactly one range, `[lo-hi]`,
/// whose bounds are ASCII letters or digits with `lo` not after `hi`.
pub open spec fn is_range_class(pattern: Seq<char>) -> bool {
    &&& pattern.len() == 5
    &&& pattern[0] == '['
    &&& is_ascii_alphanumeric(pattern[1])
    &&& pattern[2] == '-'
    &&& is_ascii_alphanumeric(pattern[3])
    &&& pattern[4] == ']'
    &&& pattern[1] <= pattern[3]
}

/// Whether `c` is a decimal digit, `0` to `9`.
pub open spec fn is_digit(c: char) -> bool {
    '0' <= c && c <= '9'
}

/// Whether `c` is a lowercase letter, `a` to `z`.
pub open spec fn is_lower(c: char) -> bool {
    'a' <= c && c <= 'z'
}

/// Compiles `pattern` with `regex::Regex::new` and asks `Regex::is_match`
/// whether the text that consists of the single character `c` contains a
/// match. `None` means that the pattern did not compile.
///
/// The pattern is compiled on every call: a compiled `Regex` is opaque to
/// the verifier, so a contract on it could not speak of the pattern that it
/// was made from.
///
/// Trusted, not proved: a pattern of the form `[lo-hi]`, with ASCII letters
/// or digits as bounds and `lo` not after `hi`, compiles, and it matches a
/// one-character text exactly when that character lies between the two
/// bounds, both included. This is what the regex syntax says of a character
/// class with one range, and what `is_match` says of a match anywhere in the
/// text.
#[verifier::external_body]
fn class_matches(pattern: &str, c: char) -> (hit: Option<bool>)
    ensures
        is_range_class(pattern@) ==> hit == Some(pattern@[1] <= c && c <= pattern@[3]),
{
    match Regex::new(pattern) {
        Ok(re) => Some(re.is_match(c.to_string().as_str())),
        Err(_) => None,
    }
}

/// Tells whether `c` is a decimal digit, by matching it against `[0-9]`.
pub fn is_digit_char(c: char) -> (b: bool)
    ensures
        b == is_digit(c),
{
    proof {
        reveal_strlit("[0-9]");
    }
    match class_matches("[0-9]", c) {
        Some(hit) => hit,
        None => unreached(),
    }
}

/// Tells whether `c` is a lowercase letter, by matching it against `[a-z]`.
pub fn is_lower_char(c: char) -> (b: bool)
    ensures
        b == is_lower(c),
{
    proof {
        reveal_strlit("[a-z]");
    }
    match class_matches("[a-z]", c) {
        Some(hit) => hit,
        None => unreached(),
    }
}

} // verus!
