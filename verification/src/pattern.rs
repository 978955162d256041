//! Regular-expression matching, done by the `regex` crate.

use vstd::prelude::*;

verus! {

/// `regex::Error`, the `regex` crate's refusal of a pattern. Nothing is said
/// of what it holds.
#[verifier::external_type_specification]
#[verifier::external_body]
pub struct ExRegexError(regex::Error);

/// Whether the `regex` crate accepts `pattern` as a regular expression:
/// whether `regex::Regex::new` compiles it, under the crate's own limits.
pub uninterp spec fn regex_accepts(pattern: Seq<char>) -> bool;

/// The capture groups of the first match of the regular expression
/// `pattern` in `text`, as `regex::Regex::captures` finds them: group 0 is
/// the whole match, the others follow in the order of their opening
/// parentheses, and a group that took no part in the match is `None`. The
/// result is `None` where nothing in `text` matches. It is spoken of only
/// for a `pattern` that the crate accepts.
pub uninterp spec fn regex_captures(pattern: Seq<char>, text: Seq<char>) -> Option<
    Seq<Option<Seq<char>>>,
>;

/// Compiles `pattern` with `regex::Regex::new` and searches `text` with
/// `regex::Regex::captures`, handing out the text of every group.
///
/// Trusted: the call fails exactly where the crate does not accept
/// `pattern`, which is what [`regex_accepts`] names; and where it succeeds,
/// its result is what [`regex_captures`] names.
#[verifier::external_body]
pub(crate) fn capture_groups(pattern: &str, text: &str) -> (found: Result<
    Option<Vec<Option<String>>>,
    regex::Error,
>)
    ensures
        (found is Ok) == regex_accepts(pattern@),
        found matches Ok(groups) ==> groups.deep_view() == regex_captures(pattern@, text@),
{
    let compiled = regex::Regex::new(pattern)?;
    Ok(
        compiled.captures(text).map(
            |groups| groups.iter().map(|group| group.map(|m| m.as_str().to_string())).collect(),
        ),
    )
}

} // verus!
