//! Deleting what a regular expression matches, by the `regex` crate.

use vstd::prelude::*;

verus! {

/// The error that `regex::Regex::new` gives for a pattern it does not take.
#[verifier::external_type_specification]
#[verifier::external_body]
pub struct ExPatternError(regex::Error);

/// Whether `regex::Regex::new` accepts `pattern`.
pub uninterp spec fn regex_compiles(pattern: Seq<char>) -> bool;

/// What is left of `text` when every match of `pattern`, found from left to
/// right by `regex::Regex::replace_all`, is replaced by nothing.
pub uninterp spec fn regex_deleted(pattern: Seq<char>, text: Seq<char>) -> Seq<char>;

/// Compiles `pattern` with `regex::Regex::new` and, where that succeeds,
/// calls `regex::Regex::replace_all` on `text` with an empty replacement.
///
/// Nothing of this is proved. The contract claims only that both calls are
/// functions of their arguments: whether the pattern compiles depends on the
/// pattern alone, and the text that comes back on the pattern and the text
/// alone. A pattern that is refused comes back as the crate's own error.
#[verifier::external_body]
pub(crate) fn delete_matches(pattern: &str, text: &str) -> (r: Result<String, regex::Error>)
    ensures
        r is Ok <==> regex_compiles(pattern@),
        r matches Ok(out) ==> out@ == regex_deleted(pattern@, text@),
{
    match regex::Regex::new(pattern) {
        Ok(re) => Ok(re.replace_all(text, "").into_owned()),
        Err(e) => Err(e),
    }
}

} // verus!
