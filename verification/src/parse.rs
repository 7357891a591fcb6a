//! Parsing of separator-delimited pairs, as they arrive on the command line:
//! `"400x300"` as a pair of dimensions, `"-1.2,0.35"` as a coordinate pair.

use std::str::FromStr;
use vstd::prelude::*;
use vstd::string::StrSliceExecFns;

verus! {

/// Holds exactly when `i` is the position of the first occurrence of `sep` in `s`.
pub open spec fn is_first_sep(s: Seq<char>, sep: char, i: int) -> bool {
    &&& 0 <= i < s.len()
    &&& s[i] == sep
    &&& forall|j: int| 0 <= j < i ==> s[j] != sep
}

/// Relies on `<T as FromStr>::from_str` (std): parses the whole string as a
/// `T`. Which strings parse, and to what value, is the implementation's own
/// affair, so nothing is promised of the outcome.
#[verifier::external_body]
fn try_parse<T: FromStr>(s: &str) -> (r: Option<T>) {
    match T::from_str(s) {
        Ok(v) => Some(v),
        Err(_) => None,
    }
}

/// Splits `s` at the first occurrence of `sep`: the characters before it and
/// the characters after it, or `None` when `sep` does not occur in `s`.
pub fn split_at_sep<'a>(s: &'a str, sep: char) -> (r: Option<(&'a str, &'a str)>)
    ensures
        (match r {
            Some(parts) => exists|i: int|
                #[trigger] is_first_sep(s@, sep, i) && parts.0@ == s@.subrange(0, i)
                    && parts.1@ == s@.subrange(i + 1, s@.len() as int),
            None => forall|j: int| 0 <= j < s@.len() ==> s@[j] != sep,
        }),
{
    let len = s.unicode_len();
    let mut i: usize = 0;
    while i < len
        invariant
            len == s@.len(),
            i <= len,
            forall|j: int| 0 <= j < i ==> s@[j] != sep,
        decreases len - i,
    {
        if s.get_char(i) == sep {
            let before = s.substring_char(0, i);
            let after = s.substring_char(i + 1, len);
            proof {
                assert(is_first_sep(s@, sep, i as int));
            }
            return Some((before, after));
        }
        i = i + 1;
    }
    None
}

/// Parses `s` as two `T` values separated by a single `separator` character.
/// Returns `None` when the separator does not occur or either side fails to
/// parse; the separator position taken is always the first occurrence.
pub fn parse_pair<T: FromStr>(s: &str, separator: char) -> (r: Option<(T, T)>)
    ensures
        (forall|j: int| 0 <= j < s@.len() ==> s@[j] != separator) ==> (r is None),
        (r is Some) ==> (exists|i: int| #[trigger] is_first_sep(s@, separator, i)),
{
    match split_at_sep(s, separator) {
        None => None,
        Some((before, after)) => match (try_parse::<T>(before), try_parse::<T>(after)) {
            (Some(l), Some(rv)) => Some((l, rv)),
            _ => None,
        },
    }
}

} // verus!
