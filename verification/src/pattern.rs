//! Pattern matching on text, done by the `regex` crate.

use vstd::prelude::*;

verus! {

/// `regex::Error`, what `regex::Regex::new` reports of a pattern it refuses.
#[verifier::external_type_specification]
#[verifier::external_body]
pub struct ExRegexError(regex::Error);

/// Whether `regex::Regex::new` accepts `pattern`.
pub uninterp spec fn regex_accepts(pattern: Seq<char>) -> bool;

/// What the first capture group of `pattern` holds in the leftmost match that
/// `regex::Regex::captures` finds in `text`: `None` where nothing matches or
/// the group took no part in the match.
pub uninterp spec fn regex_first_group(pattern: Seq<char>, text: Seq<char>) -> Option<Seq<char>>;

/// The text of an optional string.
pub open spec fn text_of(found: Option<String>) -> Option<Seq<char>> {
    match found {
        Some(text) => Some(text@),
        None => None,
    }
}

/// Compiles `pattern` with `regex::Regex::new` and searches `text` with
/// `Regex::captures`, handing back a copy of what group 1 matched.
///
/// Trusted: the error comes exactly when the crate refuses the pattern, and
/// the text handed back is the crate's answer for this pattern and text. Both
/// depend on the two arguments alone.
#[verifier::external_body]
pub(crate) fn first_group(pattern: &str, text: &str) -> (r: Result<Option<String>, regex::Error>)
    ensures
        r is Ok <==> regex_accepts(pattern@),
        r matches Ok(found) ==> text_of(found) == regex_first_group(pattern@, text@),
{
    let regex = regex::Regex::new(pattern)?;
    match regex.captures(text) {
        Some(groups) => match groups.get(1) {
            Some(group) => Ok(Some(group.as_str().to_owned())),
            None => Ok(None),
        },
        None => Ok(None),
    }
}

} // verus!
