//! Regular expressions, by the `regex` crate.
//!
//! Verus does not read the crate. What a search finds is given a name, and
//! the one function that makes the search is taken on trust.

use vstd::prelude::*;

verus! {

/// Makes `regex::Error` known to Verus, as a type that it cannot look into.
#[verifier::external_type_specification]
#[verifier::external_body]
pub struct ExRegexError(regex::Error);

/// One match of a pattern that has a capture group.
#[derive(PartialEq, Eq, Debug)]
pub struct Capture {
    /// The text of the first group, where the group took part in the match.
    pub group: Option<String>,
    /// The byte offsets at which the whole match starts and ends.
    pub span: Option<(usize, usize)>,
}

impl DeepView for Capture {
    type V = (Option<Seq<char>>, Option<(int, int)>);

    open spec fn deep_view(&self) -> (Option<Seq<char>>, Option<(int, int)>) {
        (
            self.group.deep_view(),
            match self.span {
                Some((start, end)) => Some((start as int, end as int)),
                None => None,
            },
        )
    }
}

/// Whether `pattern` is a regular expression that the crate accepts.
pub uninterp spec fn compiles(pattern: Seq<char>) -> bool;

/// The successive matches of `pattern` in `haystack`, from left to right:
/// for each, the text of the first group and the span of the whole match.
pub uninterp spec fn captures_of(pattern: Seq<char>, haystack: Seq<char>) -> Seq<
    (Option<Seq<char>>, Option<(int, int)>),
>;

/// `Regex::new` compiles the pattern and fails where it is not a regular
/// expression that the crate accepts; `Regex::captures_iter` then yields the
/// successive matches, of each of which `Captures::get` gives the first group
/// and the whole match. The contract names what is found and says no more.
#[verifier::external_body]
pub(crate) fn find_captures(pattern: &str, haystack: &str) -> (found: Result<
    Vec<Capture>,
    regex::Error,
>)
    ensures
        found is Ok <==> compiles(pattern@),
        found matches Ok(captures) ==> captures.deep_view() == captures_of(pattern@, haystack@),
{
    let regex = regex::Regex::new(pattern)?;
    Ok(
        regex.captures_iter(haystack).map(
            |found| Capture {
                group: found.get(1).map(|group| group.as_str().to_owned()),
                span: found.get(0).map(|whole| (whole.start(), whole.end())),
            },
        ).collect(),
    )
}

} // verus!
