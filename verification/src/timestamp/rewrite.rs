//! Rewriting a line: each literal gives way to the timestamp that it spells.

use crate::matcher::{find_literals, literal_spans};
use crate::timestamp::literal::{
    check_table, groups_fit, lemma_deep_view_is_view, read_timestamp, table_fits, timestamp_of,
    whole,
};
use crate::timestamp::spans::{cut, lemma_text_between_ends, rest_from, text_between, Span};
use vstd::prelude::*;
use vstd::string::*;
use vstd::utf8::*;

verus! {

/// The literal to look for, as a regular expression: the constructor's name, five numbers,
/// then seconds, microseconds and the UTC marker, each of which may be left out.
pub const TIMESTAMP_PATTERN: &'static str =
    "datetime\\.datetime\\((?<year>\\d+),\\s*(?<month>\\d+),\\s*(?<day>\\d+),\\s*(?<hour>\\d+),\\s*(?<minute>\\d+)(?:,\\s*(?<second>\\d+))?(?:,\\s*(?<microsecond>\\d+))?(?:,\\s*tzinfo=datetime\\.timezone\\.utc)?\\)";

/// Why a line cannot be rewritten.
#[derive(Clone, Copy, Debug, PartialEq, Eq, Structural)]
pub enum RewriteError {
    /// The spans are not those of matches in the line: one lies outside the line, cuts a
    /// character in two or reaches into the next match, or a match has no span.
    InvalidSpan,
    /// A field of a literal is no number that fits 32 bits.
    InvalidNumber,
}

/// What a literal gives way to: the text of its timestamp.
pub open spec fn replacement(line: Seq<char>, groups: Seq<Option<Span>>) -> Seq<char> {
    match timestamp_of(line, groups) {
        Some(stamp) => stamp.iso(),
        None => Seq::empty(),
    }
}

/// The line from the byte offset `from` on, with the literals from the `k`-th on replaced:
/// the text up to the literal, its replacement, and so on to the end of the line.
pub open spec fn rewritten_from(
    line: Seq<char>,
    table: Seq<Seq<Option<Span>>>,
    k: int,
    from: int,
) -> Seq<char>
    decreases table.len() - k,
{
    if k < 0 || k >= table.len() {
        text_between(line, from, encode_utf8(line).len() as int)
    } else {
        text_between(line, from, whole(table[k]).start as int) + replacement(line, table[k])
            + rewritten_from(line, table, k + 1, whole(table[k]).end as int)
    }
}

/// Every literal of the table spells a timestamp.
pub open spec fn all_spelled(line: Seq<char>, table: Seq<Seq<Option<Span>>>) -> bool {
    forall|k: int| 0 <= k < table.len() ==> timestamp_of(line, #[trigger] table[k]) is Some
}

/// The line with its literals replaced, or the reason why it cannot be rewritten.
pub open spec fn rewrite(line: Seq<char>, table: Seq<Seq<Option<Span>>>) -> Result<
    Seq<char>,
    RewriteError,
> {
    if !table_fits(line, table) {
        Err(RewriteError::InvalidSpan)
    } else if !all_spelled(line, table) {
        Err(RewriteError::InvalidNumber)
    } else {
        Ok(rewritten_from(line, table, 0, 0))
    }
}

/// The mathematical value of a result of rewriting.
pub open spec fn outcome(result: Result<String, RewriteError>) -> Result<Seq<char>, RewriteError> {
    match result {
        Ok(text) => Ok(text@),
        Err(error) => Err(error),
    }
}

/// A line without a literal stays as it is.
pub proof fn law_untouched_without_literal(line: Seq<char>)
    ensures
        rewrite(line, Seq::empty()) == Ok::<_, RewriteError>(line),
{
    lemma_text_between_ends(line);
}

/// Where the text before the `k`-th literal begins: at the end of the literal before it,
/// or at the start of the line.
pub open spec fn gap_start(table: Seq<Seq<Option<Span>>>, k: int) -> int {
    if k <= 0 {
        0
    } else {
        whole(table[k - 1]).end as int
    }
}

/// The text between two literals, or before the first, is a stretch of the line.
proof fn lemma_gap_fits(line: Seq<char>, table: Seq<Seq<Option<Span>>>, k: int)
    requires
        table_fits(line, table),
        0 <= k < table.len(),
    ensures
        0 <= gap_start(table, k) <= whole(table[k]).start,
        is_char_boundary(encode_utf8(line), gap_start(table, k)),
        is_char_boundary(encode_utf8(line), whole(table[k]).start as int),
        is_char_boundary(encode_utf8(line), whole(table[k]).end as int),
{
    encode_utf8_valid_utf8(line);
    is_char_boundary_start_end_of_seq(encode_utf8(line));
    assert(groups_fit(line, table[k]));
    if k > 0 {
        assert(groups_fit(line, table[k - 1]));
    }
}

/// What is written up to and with the `k`-th literal, followed by the rest of the line
/// rewritten, is what was written before it followed by the line rewritten from there.
proof fn lemma_rewritten_step(
    line: Seq<char>,
    table: Seq<Seq<Option<Span>>>,
    k: int,
    from: int,
    before: Seq<char>,
    gap: Seq<char>,
    stamp: Seq<char>,
)
    requires
        0 <= k < table.len(),
        gap == text_between(line, from, whole(table[k]).start as int),
        stamp == replacement(line, table[k]),
    ensures
        before + gap + stamp + rewritten_from(line, table, k + 1, whole(table[k]).end as int)
            == before + rewritten_from(line, table, k, from),
{
    let rest = rewritten_from(line, table, k + 1, whole(table[k]).end as int);
    assert(before + gap + stamp + rest =~= before + (gap + stamp + rest));
}

/// Replaces the literals that `table` lists in `line`.
///
/// Each entry of the table is one literal: the spans of its capture groups, group 0 being
/// the whole literal. The text between the literals is kept as it is.
pub fn rewrite_line(line: &str, table: &Vec<Vec<Option<Span>>>) -> (result: Result<
    String,
    RewriteError,
>)
    ensures
        outcome(result) == rewrite(line@, table.deep_view()),
{
    if !check_table(line, table) {
        return Err(RewriteError::InvalidSpan);
    }
    let ghost spans = table.deep_view();
    let ghost goal = rewritten_from(line@, spans, 0, 0);
    let mut out = String::new();
    let mut reached: usize = 0;
    let mut k: usize = 0;
    while k < table.len()
        invariant
            k <= table.len(),
            spans == table.deep_view(),
            table_fits(line@, spans),
            reached == gap_start(spans, k as int),
            forall|j: int| 0 <= j < k ==> timestamp_of(line@, #[trigger] spans[j]) is Some,
            out@ + rewritten_from(line@, spans, k as int, reached as int) == goal,
        decreases table.len() - k,
    {
        let groups = &table[k];
        proof {
            lemma_deep_view_is_view(*groups);
            lemma_gap_fits(line@, spans, k as int);
        }
        let here = groups[0].unwrap();
        let stamp = match read_timestamp(line, groups) {
            Some(stamp) => stamp,
            None => {
                return Err(RewriteError::InvalidNumber);
            },
        };
        let ghost before = out@;
        let gap = cut(line, Span { start: reached, end: here.start });
        out.append(gap);
        stamp.push_iso(&mut out);
        proof {
            lemma_rewritten_step(
                line@,
                spans,
                k as int,
                reached as int,
                before,
                gap@,
                stamp.iso(),
            );
        }
        reached = here.end;
        k = k + 1;
    }
    proof {
        if k > 0 {
            lemma_gap_fits(line@, spans, k - 1);
        } else {
            encode_utf8_valid_utf8(line@);
            is_char_boundary_start_end_of_seq(encode_utf8(line@));
        }
    }
    out.append(rest_from(line, reached));
    Ok(out)
}

/// Replaces every `datetime.datetime(..)` literal in `line` by its timestamp.
///
/// The literals are the matches of [`TIMESTAMP_PATTERN`] in the line, from left to right.
/// A line without one is returned as it is. The line is refused where a field of a
/// literal is no number that fits 32 bits. The pattern is compiled anew at each call.
pub fn normalize_line(line: &str) -> (result: Result<String, RewriteError>)
    ensures
        outcome(result) == rewrite(line@, literal_spans(TIMESTAMP_PATTERN@, line@)),
        result != Err::<String, _>(RewriteError::InvalidSpan),
{
    let table = find_literals(TIMESTAMP_PATTERN, line);
    rewrite_line(line, &table)
}

} // verus!
