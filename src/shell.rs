//! Splitting a line into words the way a Bourne shell does.

use vstd::prelude::*;

use crate::text::words;

verus! {

#[verifier::external_type_specification]
#[verifier::external_body]
pub struct ExMismatchedQuotes(shellwords::MismatchedQuotes);

/// The words of `line` under shell quoting; `None` when a quote is left
/// open.
pub uninterp spec fn shell_words(line: Seq<char>) -> Option<Seq<Seq<char>>>;

/// Relies on `shellwords::split`: splits `line` into words as a Bourne shell
/// does (quotes and backslashes), or fails on mismatched quotes; the result
/// depends on `line` alone.
#[verifier::external_body]
pub(crate) fn shell_split(line: &str) -> (r: Result<Vec<String>, shellwords::MismatchedQuotes>)
    ensures
        shell_words(line@) == match r {
            Ok(v) => Some(words(v@)),
            Err(_) => None::<Seq<Seq<char>>>,
        },
{
    shellwords::split(line)
}

} // verus!
