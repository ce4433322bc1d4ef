//! Dividing the input into its two sections.

use crate::comms::error::{CommsError, CommsFault};
use crate::text::{blank, is_blank};
use vstd::prelude::*;
use vstd::string::*;

verus! {

/// Where the reader stands in the input.
#[derive(Clone, Copy, Debug, PartialEq, Eq, Structural)]
pub enum State {
    /// No line of the first section has been seen.
    BeforeFirstSection,
    /// The last line belonged to the first section.
    CollectingFirstSection,
    /// The first section is over and the second has not begun.
    BeforeSecondSection,
    /// The last line belonged to the second section.
    CollectingSecondSection,
    /// Both sections are over.
    Finished,
}

/// What becomes of a line.
#[derive(Clone, Copy, Debug, PartialEq, Eq, Structural)]
pub enum Placement {
    /// The line belongs to no section.
    Skipped,
    /// The line is the next line of the first section.
    First,
    /// The line is the next line of the second section.
    Second,
    /// The line is not blank and comes after the second section: the input is refused.
    Refused,
}

/// The state after a line, and what becomes of the line, given the state before it and
/// whether the line is blank.
pub open spec fn transition(state: State, is_blank: bool) -> (State, Placement) {
    match state {
        State::BeforeFirstSection => if is_blank {
            (State::BeforeFirstSection, Placement::Skipped)
        } else {
            (State::CollectingFirstSection, Placement::First)
        },
        State::CollectingFirstSection => if is_blank {
            (State::BeforeSecondSection, Placement::Skipped)
        } else {
            (State::CollectingFirstSection, Placement::First)
        },
        State::BeforeSecondSection => if is_blank {
            (State::BeforeSecondSection, Placement::Skipped)
        } else {
            (State::CollectingSecondSection, Placement::Second)
        },
        State::CollectingSecondSection => if is_blank {
            (State::Finished, Placement::Skipped)
        } else {
            (State::CollectingSecondSection, Placement::Second)
        },
        State::Finished => if is_blank {
            (State::Finished, Placement::Skipped)
        } else {
            (State::Finished, Placement::Refused)
        },
    }
}

/// Takes one line: the state after it and what becomes of it.
pub fn step(state: State, is_blank: bool) -> (next: (State, Placement))
    ensures
        next == transition(state, is_blank),
{
    match state {
        State::BeforeFirstSection => if is_blank {
            (State::BeforeFirstSection, Placement::Skipped)
        } else {
            (State::CollectingFirstSection, Placement::First)
        },
        State::CollectingFirstSection => if is_blank {
            (State::BeforeSecondSection, Placement::Skipped)
        } else {
            (State::CollectingFirstSection, Placement::First)
        },
        State::BeforeSecondSection => if is_blank {
            (State::BeforeSecondSection, Placement::Skipped)
        } else {
            (State::CollectingSecondSection, Placement::Second)
        },
        State::CollectingSecondSection => if is_blank {
            (State::Finished, Placement::Skipped)
        } else {
            (State::CollectingSecondSection, Placement::Second)
        },
        State::Finished => if is_blank {
            (State::Finished, Placement::Skipped)
        } else {
            (State::Finished, Placement::Refused)
        },
    }
}

/// The end of the run of lines that begins at `from` and in which every line is blank
/// (`of_blank`) or every line is not: the first position at or after `from` whose line is
/// of the other kind, or the number of lines where there is none.
pub open spec fn run_end(lines: Seq<Seq<char>>, from: int, of_blank: bool) -> int
    decreases lines.len() - from,
{
    if from < 0 || from >= lines.len() {
        lines.len() as int
    } else if blank(lines[from]) != of_blank {
        from
    } else {
        run_end(lines, from + 1, of_blank)
    }
}

/// Where the sections lie in the input.
pub struct Layout {
    /// The first section is the lines from `first_start` up to `first_end`.
    pub first_start: int,
    pub first_end: int,
    /// The second section is the lines from `second_start` up to `second_end`.
    pub second_start: int,
    pub second_end: int,
    /// The position of the first line after the second section that is not blank, or the
    /// number of lines where there is none.
    pub extra: int,
}

/// The layout of `lines`: blank lines, the first section, blank lines, the second section,
/// blank lines, and whatever is left.
pub open spec fn layout(lines: Seq<Seq<char>>) -> Layout {
    let first_start = run_end(lines, 0, true);
    let first_end = run_end(lines, first_start, false);
    let second_start = run_end(lines, first_end, true);
    let second_end = run_end(lines, second_start, false);
    let extra = run_end(lines, second_end, true);
    Layout { first_start, first_end, second_start, second_end, extra }
}

/// The two sections of `lines`, or the fault that a line after the second section gives.
pub open spec fn sections_of(lines: Seq<Seq<char>>) -> Result<
    (Seq<Seq<char>>, Seq<Seq<char>>),
    CommsFault,
> {
    let at = layout(lines);
    if at.extra < lines.len() {
        Err(CommsFault::ExtraSection { line_number: (at.extra + 1) as nat, line: lines[at.extra] })
    } else {
        Ok(
            (
                lines.subrange(at.first_start, at.first_end),
                lines.subrange(at.second_start, at.second_end),
            ),
        )
    }
}

/// A run ends within the input and not before it begins.
pub proof fn lemma_run_end_bounds(lines: Seq<Seq<char>>, from: int, of_blank: bool)
    requires
        0 <= from <= lines.len(),
    ensures
        from <= run_end(lines, from, of_blank) <= lines.len(),
    decreases lines.len() - from,
{
    if from < lines.len() && blank(lines[from]) == of_blank {
        lemma_run_end_bounds(lines, from + 1, of_blank);
    }
}

/// A run that reaches position `i` goes on past it where the line there is of the run's
/// kind, and ends there where it is not.
pub proof fn lemma_run_end_step(lines: Seq<Seq<char>>, from: int, of_blank: bool, i: int)
    requires
        0 <= from <= i < lines.len(),
        run_end(lines, from, of_blank) >= i,
    ensures
        blank(lines[i]) == of_blank ==> run_end(lines, from, of_blank) >= i + 1,
        blank(lines[i]) != of_blank ==> run_end(lines, from, of_blank) == i,
    decreases i - from,
{
    if from < i {
        lemma_run_end_step(lines, from + 1, of_blank, i);
    } else {
        lemma_run_end_bounds(lines, from + 1, of_blank);
    }
}

/// What the reader knows after the first `i` lines, in state `state`, with the sections
/// `first` and `second` collected so far.
pub open spec fn tracks(
    lines: Seq<Seq<char>>,
    i: int,
    state: State,
    first: Seq<Seq<char>>,
    second: Seq<Seq<char>>,
) -> bool {
    let at = layout(lines);
    match state {
        State::BeforeFirstSection => {
            &&& i <= at.first_start
            &&& first.len() == 0
            &&& second.len() == 0
        },
        State::CollectingFirstSection => {
            &&& at.first_start < i <= at.first_end
            &&& first == lines.subrange(at.first_start, i)
            &&& second.len() == 0
        },
        State::BeforeSecondSection => {
            &&& at.first_end < i <= at.second_start
            &&& first == lines.subrange(at.first_start, at.first_end)
            &&& second.len() == 0
        },
        State::CollectingSecondSection => {
            &&& at.second_start < i <= at.second_end
            &&& first == lines.subrange(at.first_start, at.first_end)
            &&& second == lines.subrange(at.second_start, i)
        },
        State::Finished => {
            &&& at.second_end < i <= at.extra
            &&& first == lines.subrange(at.first_start, at.first_end)
            &&& second == lines.subrange(at.second_start, at.second_end)
        },
    }
}

/// One line keeps what the reader knows: after line `i` the reader knows of `i + 1` lines
/// what it knew of `i`, in the state and with the sections that the transition gives.
pub proof fn lemma_tracks_step(
    lines: Seq<Seq<char>>,
    i: int,
    state: State,
    first: Seq<Seq<char>>,
    second: Seq<Seq<char>>,
)
    requires
        0 <= i < lines.len(),
        tracks(lines, i, state, first, second),
    ensures
        match transition(state, blank(lines[i])).1 {
            Placement::Skipped => tracks(
                lines,
                i + 1,
                transition(state, blank(lines[i])).0,
                first,
                second,
            ),
            Placement::First => tracks(
                lines,
                i + 1,
                transition(state, blank(lines[i])).0,
                first.push(lines[i]),
                second,
            ),
            Placement::Second => tracks(
                lines,
                i + 1,
                transition(state, blank(lines[i])).0,
                first,
                second.push(lines[i]),
            ),
            Placement::Refused => layout(lines).extra == i,
        },
{
    let at = layout(lines);
    let here = blank(lines[i]);
    lemma_layout_ordered(lines);
    match state {
        State::BeforeFirstSection => {
            lemma_run_end_step(lines, 0, true, i);
            if !here {
                lemma_run_end_step(lines, i, false, i);
                assert(first.push(lines[i]) =~= lines.subrange(i, i + 1));
            }
        },
        State::CollectingFirstSection => {
            lemma_run_end_step(lines, at.first_start, false, i);
            if here {
                lemma_run_end_step(lines, i, true, i);
            } else {
                assert(first.push(lines[i]) =~= lines.subrange(at.first_start, i + 1));
            }
        },
        State::BeforeSecondSection => {
            lemma_run_end_step(lines, at.first_end, true, i);
            if !here {
                lemma_run_end_step(lines, i, false, i);
                assert(second.push(lines[i]) =~= lines.subrange(i, i + 1));
            }
        },
        State::CollectingSecondSection => {
            lemma_run_end_step(lines, at.second_start, false, i);
            if here {
                lemma_run_end_step(lines, i, true, i);
            } else {
                assert(second.push(lines[i]) =~= lines.subrange(at.second_start, i + 1));
            }
        },
        State::Finished => {
            lemma_run_end_step(lines, at.second_end, true, i);
        },
    }
}

/// What the reader knows at the end of the input is what the input holds.
pub proof fn lemma_tracks_end(
    lines: Seq<Seq<char>>,
    state: State,
    first: Seq<Seq<char>>,
    second: Seq<Seq<char>>,
)
    requires
        tracks(lines, lines.len() as int, state, first, second),
    ensures
        sections_of(lines) == Ok::<_, CommsFault>((first, second)),
{
    let at = layout(lines);
    lemma_layout_ordered(lines);
    assert(first =~= lines.subrange(at.first_start, at.first_end));
    assert(second =~= lines.subrange(at.second_start, at.second_end));
}

/// Divides `lines` into the two sections.
///
/// Blank lines before the first section, between the sections and after the second are
/// dropped. A line that is not blank after the second section is an error, which names the
/// line and its number, counted from 1.
pub fn collect_sections(lines: &Vec<String>) -> (result: Result<
    (Vec<String>, Vec<String>),
    CommsError,
>)
    ensures
        match result {
            Ok((first, second)) => sections_of(lines.deep_view()) == Ok::<_, CommsFault>(
                (first.deep_view(), second.deep_view()),
            ),
            Err(error) => sections_of(lines.deep_view()) == Err::<
                (Seq<Seq<char>>, Seq<Seq<char>>),
                _,
            >(error.deep_view()),
        },
{
    let ghost texts = lines.deep_view();
    let mut state = State::BeforeFirstSection;
    let mut first: Vec<String> = Vec::new();
    let mut second: Vec<String> = Vec::new();
    proof {
        lemma_layout_ordered(texts);
    }
    let mut i: usize = 0;
    while i < lines.len()
        invariant
            i <= lines.len(),
            texts == lines.deep_view(),
            tracks(texts, i as int, state, first.deep_view(), second.deep_view()),
        decreases lines.len() - i,
    {
        let line = &lines[i];
        let (next, placement) = step(state, is_blank(line.as_str()));
        proof {
            lemma_tracks_step(texts, i as int, state, first.deep_view(), second.deep_view());
        }
        match placement {
            Placement::Skipped => {},
            Placement::First => {
                let ghost before = first.deep_view();
                first.push(line.clone());
                assert(first.deep_view() =~= before.push(line@));
            },
            Placement::Second => {
                let ghost before = second.deep_view();
                second.push(line.clone());
                assert(second.deep_view() =~= before.push(line@));
            },
            Placement::Refused => {
                return Err(CommsError::ExtraSection { line_number: i + 1, line: line.clone() });
            },
        }
        state = next;
        i = i + 1;
    }
    proof {
        lemma_tracks_end(texts, state, first.deep_view(), second.deep_view());
    }
    Ok((first, second))
}

/// The points of a layout follow one another within the input.
pub proof fn lemma_layout_ordered(lines: Seq<Seq<char>>)
    ensures
        0 <= layout(lines).first_start <= layout(lines).first_end <= layout(lines).second_start
            <= layout(lines).second_end <= layout(lines).extra <= lines.len(),
{
    let at = layout(lines);
    lemma_run_end_bounds(lines, 0, true);
    lemma_run_end_bounds(lines, at.first_start, false);
    lemma_run_end_bounds(lines, at.first_end, true);
    lemma_run_end_bounds(lines, at.second_start, false);
    lemma_run_end_bounds(lines, at.second_end, true);
}

} // verus!
