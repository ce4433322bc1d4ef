//! A literal found in a line: the spans of its capture groups, and the timestamp that
//! they spell.

use crate::text::{number, read_number};
use crate::timestamp::spans::{fits, slice, span_fits, span_text, Span};
use crate::timestamp::stamp::Timestamp;
use vstd::prelude::*;

verus! {

/// The span of capture group `g`, where the group took part in the match. Group 0 is the
/// whole literal; groups 1 to 7 are year, month, day, hour, minute, second and microsecond.
pub open spec fn group(groups: Seq<Option<Span>>, g: int) -> Option<Span> {
    if 0 <= g < groups.len() {
        groups[g]
    } else {
        None
    }
}

/// The span of the whole literal.
pub open spec fn whole(groups: Seq<Option<Span>>) -> Span
    recommends
        groups.len() > 0,
        groups[0] is Some,
{
    groups[0]->0
}

/// The groups are those of a match in `line`: the whole literal has a span, and every span
/// fits the line.
pub open spec fn groups_fit(line: Seq<char>, groups: Seq<Option<Span>>) -> bool {
    &&& groups.len() > 0
    &&& groups[0] is Some
    &&& forall|g: int|
        0 <= g < groups.len() && (#[trigger] groups[g]) is Some ==> span_fits(line, groups[g]->0)
}

/// The table lists matches in `line` from left to right, none reaching into the next.
pub open spec fn table_fits(line: Seq<char>, table: Seq<Seq<Option<Span>>>) -> bool {
    &&& forall|k: int| 0 <= k < table.len() ==> groups_fit(line, #[trigger] table[k])
    &&& forall|j: int, k: int|
        0 <= j < k < table.len() ==> whole(#[trigger] table[j]).end <= whole(
            #[trigger] table[k],
        ).start
}

/// The value of the field that capture group `g` holds. A group that took no part in the
/// match gives 0 where the field may be left out, and no value where it may not.
pub open spec fn field(line: Seq<char>, groups: Seq<Option<Span>>, g: int, required: bool) -> Option<
    u32,
> {
    match group(groups, g) {
        Some(span) => number(span_text(line, span)),
        None => if required {
            None
        } else {
            Some(0)
        },
    }
}

/// The timestamp that a literal spells, where each of its fields has a value.
pub open spec fn timestamp_of(line: Seq<char>, groups: Seq<Option<Span>>) -> Option<Timestamp> {
    if field(line, groups, 1, true) is Some && field(line, groups, 2, true) is Some && field(
        line,
        groups,
        3,
        true,
    ) is Some && field(line, groups, 4, true) is Some && field(line, groups, 5, true) is Some
        && field(line, groups, 6, false) is Some && field(line, groups, 7, false) is Some {
        Some(
            Timestamp {
                year: field(line, groups, 1, true)->0,
                month: field(line, groups, 2, true)->0,
                day: field(line, groups, 3, true)->0,
                hour: field(line, groups, 4, true)->0,
                minute: field(line, groups, 5, true)->0,
                second: field(line, groups, 6, false)->0,
                microsecond: field(line, groups, 7, false)->0,
            },
        )
    } else {
        None
    }
}

/// Tells whether the groups are those of a match in `line`.
pub fn check_groups(line: &str, groups: &Vec<Option<Span>>) -> (r: bool)
    ensures
        r == groups_fit(line@, groups@),
{
    if groups.len() == 0 {
        return false;
    }
    if groups[0].is_none() {
        return false;
    }
    let mut g: usize = 0;
    while g < groups.len()
        invariant
            g <= groups.len(),
            groups.len() > 0,
            groups@[0] is Some,
            forall|h: int|
                0 <= h < g && (#[trigger] groups@[h]) is Some ==> span_fits(line@, groups@[h]->0),
        decreases groups.len() - g,
    {
        match groups[g] {
            Some(span) => {
                if !fits(line, span) {
                    return false;
                }
            },
            None => {},
        }
        g = g + 1;
    }
    true
}

/// Tells whether the table lists matches in `line` from left to right, none reaching into
/// the next.
pub fn check_table(line: &str, table: &Vec<Vec<Option<Span>>>) -> (r: bool)
    ensures
        r == table_fits(line@, table.deep_view()),
{
    let ghost spans = table.deep_view();
    let mut reached: usize = 0;
    let mut k: usize = 0;
    while k < table.len()
        invariant
            k <= table.len(),
            spans == table.deep_view(),
            forall|j: int| 0 <= j < k ==> groups_fit(line@, #[trigger] spans[j]),
            k == 0 ==> reached == 0,
            k > 0 ==> reached == whole(spans[k - 1]).end,
            forall|i: int, j: int|
                0 <= i < j < k ==> whole(#[trigger] spans[i]).end <= whole(
                    #[trigger] spans[j],
                ).start,
        decreases table.len() - k,
    {
        let groups = &table[k];
        proof {
            lemma_deep_view_is_view(*groups);
            assert(spans[k as int] == groups@);
        }
        if !check_groups(line, groups) {
            return false;
        }
        let here = groups[0].unwrap();
        if here.start < reached {
            assert(whole(spans[k - 1]).end > whole(spans[k as int]).start);
            return false;
        }
        proof {
            assert forall|i: int| 0 <= i < k implies whole(#[trigger] spans[i]).end
                <= here.start by {
                if i < k - 1 {
                    assert(whole(spans[i]).end <= whole(spans[k - 1]).start);
                }
            }
        }
        reached = here.end;
        k = k + 1;
    }
    true
}

/// The spans of a match are plain values: seen deeply they are what they are.
pub proof fn lemma_deep_view_is_view(groups: Vec<Option<Span>>)
    ensures
        groups.deep_view() == groups@,
{
}

/// Reads the field that capture group `g` holds.
pub fn read_field(line: &str, groups: &Vec<Option<Span>>, g: usize, required: bool) -> (value:
    Option<u32>)
    requires
        groups_fit(line@, groups@),
    ensures
        value == field(line@, groups@, g as int, required),
{
    let absent = if required {
        None
    } else {
        Some(0)
    };
    if g >= groups.len() {
        return absent;
    }
    match groups[g] {
        Some(span) => match slice(line, span) {
            Some(text) => read_number(text),
            None => None,
        },
        None => absent,
    }
}

/// Reads the timestamp that a literal spells.
pub fn read_timestamp(line: &str, groups: &Vec<Option<Span>>) -> (stamp: Option<Timestamp>)
    requires
        groups_fit(line@, groups@),
    ensures
        stamp == timestamp_of(line@, groups@),
{
    let year = read_field(line, groups, 1, true);
    let month = read_field(line, groups, 2, true);
    let day = read_field(line, groups, 3, true);
    let hour = read_field(line, groups, 4, true);
    let minute = read_field(line, groups, 5, true);
    let second = read_field(line, groups, 6, false);
    let microsecond = read_field(line, groups, 7, false);
    match (year, month, day, hour, minute, second, microsecond) {
        (
            Some(year),
            Some(month),
            Some(day),
            Some(hour),
            Some(minute),
            Some(second),
            Some(microsecond),
        ) => Some(Timestamp { year, month, day, hour, minute, second, microsecond }),
        _ => None,
    }
}

} // verus!
