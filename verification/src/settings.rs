//! How a setting is read out of the environment once it has been fetched:
//! the values arrive here as plain optional strings, absent when the
//! variable is unset.

use vstd::prelude::*;
use crate::text;

verus! {

/// An optional string as characters.
pub open spec fn opt_chars(raw: Option<&str>) -> Option<Seq<char>> {
    match raw {
        Some(s) => Some(s@),
        None => None,
    }
}

/// A setting that counts as given: present, and not blank once trimmed.
/// What is kept is the trimmed value.
pub open spec fn filled_spec(raw: Option<Seq<char>>) -> Option<Seq<char>> {
    match raw {
        Some(v) => if text::trim(v).len() > 0 {
            Some(text::trim(v))
        } else {
            None
        },
        None => None,
    }
}

/// The trimmed value of a setting, or `None` when it is unset or blank.
pub fn filled(raw: Option<&str>) -> (r: Option<Vec<char>>)
    ensures
        match filled_spec(opt_chars(raw)) {
            Some(v) => r matches Some(x) && x@ == v,
            None => r is None,
        },
{
    match raw {
        Some(s) => {
            let c = text::chars_of(s);
            let t = text::trimmed(&c);
            if t.len() > 0 {
                Some(t)
            } else {
                None
            }
        },
        None => None,
    }
}

/// A trimmed setting, or `fallback` when it is unset or blank.
pub open spec fn or_default(raw: Option<Seq<char>>, fallback: Seq<char>) -> Seq<char> {
    match filled_spec(raw) {
        Some(v) => v,
        None => fallback,
    }
}

/// The trimmed setting as a `String`, or `fallback`.
pub fn filled_or(raw: Option<&str>, fallback: &str) -> (r: String)
    ensures
        r@ == or_default(opt_chars(raw), fallback@),
{
    match filled(raw) {
        Some(v) => text::string_of(&v),
        None => text::string_of(&text::chars_of(fallback)),
    }
}

/// A numeric setting: the trimmed value read as an unsigned number no
/// larger than `max`, or `fallback` when the setting is unset or blank.
/// `None` when it is given and is not such a number.
pub open spec fn number_spec(raw: Option<Seq<char>>, max: int, fallback: int) -> Option<int> {
    match filled_spec(raw) {
        Some(v) => text::parse_uint(v, max),
        None => Some(fallback),
    }
}

/// A numeric setting, read as [`number_spec`] says.
pub fn number(raw: Option<&str>, max: u64, fallback: u64) -> (r: Option<u64>)
    requires
        fallback <= max,
    ensures
        number_spec(opt_chars(raw), max as int, fallback as int) == match r {
            Some(x) => Some(x as int),
            None => None,
        },
{
    match filled(raw) {
        Some(v) => match text::parse_u64(&v) {
            Some(n) => if n <= max {
                Some(n)
            } else {
                None
            },
            None => None,
        },
        None => Some(fallback),
    }
}

/// A setting taken as written, or `fallback` when it is unset.
pub open spec fn given_or(raw: Option<Seq<char>>, fallback: Seq<char>) -> Seq<char> {
    match raw {
        Some(v) => v,
        None => fallback,
    }
}

/// The characters of a setting taken as written, or of `fallback`.
pub fn given_or_chars(raw: Option<&str>, fallback: &str) -> (r: Vec<char>)
    ensures
        r@ == given_or(opt_chars(raw), fallback@),
{
    match raw {
        Some(s) => text::chars_of(s),
        None => text::chars_of(fallback),
    }
}

/// `message` followed by `value`.
pub fn message_with(message: &str, value: &str) -> (r: String)
    ensures
        r@ == message@ + value@,
{
    let m = text::chars_of(message);
    let v = text::chars_of(value);
    let c = text::concat(&m, &v);
    text::string_of(&c)
}

} // verus!
