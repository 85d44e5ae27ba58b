//! Regular-expression matching on names and flags.

use vstd::prelude::*;

verus! {

/// Whether the regular expression `pattern` matches somewhere in `text`
/// (false when `pattern` is no valid expression).
pub uninterp spec fn regex_matches(pattern: Seq<char>, text: Seq<char>) -> bool;

/// Relies on `regex::Regex::new` and `regex::Regex::is_match`: compiles
/// `pattern` and reports whether it matches somewhere in `text`; the answer
/// depends on the two strings alone.
#[verifier::external_body]
pub(crate) fn regex_is_match(pattern: &str, text: &str) -> (r: bool)
    ensures
        r == regex_matches(pattern@, text@),
{
    match regex::Regex::new(pattern) {
        Ok(re) => re.is_match(text),
        Err(_) => false,
    }
}

} // verus!
