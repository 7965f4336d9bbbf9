//! A fuzzy query, parsed once, and the score of a path against it.

use vstd::prelude::*;
use nucleo_matcher::pattern::{CaseMatching, Normalization, Pattern};
use nucleo_matcher::{Matcher, Utf32Str};

verus! {

#[verifier::external_type_specification]
#[verifier::external_body]
pub struct ExPattern(Pattern);

/// The score of `path` against `query` under the path-matching setup that
/// `path_matcher` makes (`None`: the path does not match). For a given build
/// target it depends on the two texts alone; the set of path delimiters is
/// fixed per target (`\` is one only on Windows).
pub uninterp spec fn path_score(query: Seq<char>, path: Seq<char>) -> Option<u32>;

/// Relies on nucleo_matcher's `Pattern::parse`, ignoring case and with
/// smart Unicode normalization.
#[verifier::external_body]
fn parse_query(query: &str) -> Pattern {
    Pattern::parse(query, CaseMatching::Ignore, Normalization::Smart)
}

/// A query and the pattern parsed from it. The fields are private and `new`
/// is the only way to make one, so the pattern is always the parse of the
/// text.
pub struct Query {
    text: String,
    pattern: Pattern,
}

impl Query {
    /// The text the query was parsed from.
    pub closed spec fn text(&self) -> Seq<char> {
        self.text@
    }

    /// Parses `text` as a query.
    pub fn new(text: &str) -> (r: Query)
        ensures
            r.text() == text@,
    {
        Query { text: text.to_owned(), pattern: parse_query(text) }
    }
}

/// Relies on nucleo_matcher's `Pattern::score` on the pattern that `Query::new`
/// parsed from the query's text: the score depends on that text and the path
/// alone, and a pattern without atoms (the empty text gives none) scores every
/// path `Some(0)`.
#[verifier::external_body]
pub(crate) fn score_path(matcher: &mut Matcher, query: &Query, path: &str) -> (r: Option<u32>)
    ensures
        r == path_score(query.text(), path@),
        query.text().len() == 0 ==> r == Some(0u32),
{
    let mut buf = Vec::new();
    query.pattern.score(Utf32Str::new(path, &mut buf), matcher)
}

} // verus!
