//! The calls into the `regex` crate. Nothing here is proved: each function states what the
//! crate's documentation says of the call it makes.

use crate::comms::args::{is_flag_token, FLAG_PATTERN};
use crate::timestamp::literal::table_fits;
use crate::timestamp::rewrite::TIMESTAMP_PATTERN;
use crate::timestamp::spans::Span;
use regex::Regex;
use vstd::prelude::*;

verus! {

/// Calls `regex::Regex::new` and `regex::Regex::is_match`.
///
/// The pattern anchors the match at both ends of the token, so the token matches exactly
/// when it is a hyphen followed by one or more of the characters `1`, `2`, `3` and `i`.
#[verifier::external_body]
pub(crate) fn matches_flag_pattern(pattern: &str, token: &str) -> (hit: bool)
    requires
        pattern@ == FLAG_PATTERN@,
    ensures
        hit == is_flag_token(token@),
{
    Regex::new(pattern).unwrap().is_match(token)
}

/// The matches of `pattern` in `line`, from left to right, none overlapping another: for
/// each match the spans of its capture groups in the order of their numbers, group 0 being
/// the whole match, and `None` for a group that took no part in it.
pub uninterp spec fn literal_spans(pattern: Seq<char>, line: Seq<char>) -> Seq<Seq<Option<Span>>>;

/// Calls `regex::Regex::new`, `regex::Regex::captures_iter` and, on each match,
/// `regex::Captures::iter` with `regex::Match::start` and `regex::Match::end`.
///
/// Which matches there are is left to the crate. Of their offsets the contract states what
/// the crate documents: the whole match always has a span, every span lies on character
/// boundaries of the line with its start not after its end, and successive matches do not
/// overlap.
#[verifier::external_body]
pub(crate) fn find_literals(pattern: &str, line: &str) -> (found: Vec<Vec<Option<Span>>>)
    requires
        pattern@ == TIMESTAMP_PATTERN@,
    ensures
        found.deep_view() == literal_spans(pattern@, line@),
        table_fits(line@, found.deep_view()),
{
    Regex::new(pattern).unwrap().captures_iter(line).map(
        |c| c.iter().map(|g| g.map(|m| Span { start: m.start(), end: m.end() })).collect(),
    ).collect()
}

} // verus!
