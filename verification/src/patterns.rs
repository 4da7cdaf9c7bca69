//! Searching text by regular expressions: bindings to the `regex` crate.

use regex::Regex;
use vstd::prelude::*;

use crate::slices::is_span;

verus! {

/// The spans of the first capture group in all matches of a pattern, from left to right, as byte
/// offsets. A match in which the group takes no part counts as `None`. A pattern that does not
/// compile has no matches.
pub uninterp spec fn captured(pattern: Seq<char>, text: Seq<char>) -> Seq<Option<(int, int)>>;

/// The byte offset of the leftmost match of a pattern.
pub uninterp spec fn found(pattern: Seq<char>, text: Seq<char>) -> Option<int>;

/// A span as a pair of integers.
pub open spec fn span_view(span: Option<(usize, usize)>) -> Option<(int, int)> {
    match span {
        Some((a, b)) => Some((a as int, b as int)),
        None => None,
    }
}

/// Spans as pairs of integers.
pub open spec fn span_views(spans: Seq<Option<(usize, usize)>>) -> Seq<Option<(int, int)>> {
    Seq::new(spans.len(), |i: int| span_view(spans[i]))
}

/// Whether all spans lie in the text and enclose whole characters of it.
pub open spec fn spans_fit(text: Seq<char>, spans: Seq<Option<(usize, usize)>>) -> bool {
    forall|i: int|
        0 <= i < spans.len() ==> match #[trigger] spans[i] {
            Some((a, b)) => is_span(text, a as int, b as int),
            None => true,
        }
}

/// Trusted: `Regex::new` compiles a pattern and `Regex::captures_iter` finds its matches; the
/// offsets of a match lie in the text and on character boundaries.
#[verifier::external_body]
pub(crate) fn capture_all(pattern: &str, text: &str) -> (r: Vec<Option<(usize, usize)>>)
    ensures
        span_views(r@) == captured(pattern@, text@),
        spans_fit(text@, r@),
{
    match Regex::new(pattern) {
        Ok(re) => re.captures_iter(text).map(|c| c.get(1).map(|m| (m.start(), m.end()))).collect(),
        Err(_) => Vec::new(),
    }
}

/// Trusted: `Regex::new` compiles a pattern and `Regex::find` finds its leftmost match; the offset
/// of the match lies in the text and on a character boundary.
#[verifier::external_body]
pub(crate) fn find_first(pattern: &str, text: &str) -> (r: Option<usize>)
    ensures
        found(pattern@, text@) == (match r {
            Some(i) => Some(i as int),
            None => None,
        }),
        r matches Some(i) ==> is_span(text@, 0, i as int),
{
    match Regex::new(pattern) {
        Ok(re) => re.find(text).map(|m| m.start()),
        Err(_) => None,
    }
}

} // verus!
