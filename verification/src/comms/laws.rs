//! What holds of every report.

use crate::comms::args::Args;
use crate::comms::error::CommsFault;
use crate::comms::report::{
    category_of, common, entry_at, first_only, first_seen_at, report, report_upto, second_only,
    written_report, Category, ClassifiedText,
};
use crate::comms::run::output_of;
use crate::comms::sections::{
    lemma_layout_ordered, lemma_tracks_end, lemma_tracks_step, run_end, sections_of, tracks,
    transition, Placement, State,
};
use crate::text::blank;
use vstd::prelude::*;

verus! {

/// The lines at the first `n` positions of `lines` that no earlier position holds, in
/// their order.
pub open spec fn distinct_upto(lines: Seq<Seq<char>>, n: int) -> Seq<Seq<char>>
    decreases n,
{
    if n <= 0 {
        Seq::empty()
    } else {
        let before = distinct_upto(lines, n - 1);
        if first_seen_at(lines, n - 1) {
            before.push(lines[n - 1])
        } else {
            before
        }
    }
}

/// The distinct lines of `lines`, in the order in which they first occur.
pub open spec fn distinct(lines: Seq<Seq<char>>) -> Seq<Seq<char>> {
    distinct_upto(lines, lines.len() as int)
}

/// The line `line` stands in the report `entries`.
pub open spec fn occurs(entries: Seq<ClassifiedText>, line: Seq<char>) -> bool {
    exists|i: int| 0 <= i < entries.len() && (#[trigger] entries[i]).text == line
}

proof fn lemma_single_section_upto(first: Seq<Seq<char>>, args: Args, n: int)
    requires
        !args.ignore_first_section,
        0 <= n <= first.len(),
    ensures
        report_upto(first, Seq::empty(), args, n).len() == distinct_upto(first, n).len(),
        forall|i: int|
            0 <= i < distinct_upto(first, n).len() ==> #[trigger] report_upto(
                first,
                Seq::empty(),
                args,
                n,
            )[i] == (ClassifiedText {
                category: Category::FirstOnly,
                text: distinct_upto(first, n)[i],
            }),
    decreases n,
{
    if n > 0 {
        lemma_single_section_upto(first, args, n - 1);
    }
}

/// Where the second section is empty, the report names the distinct lines of the first
/// section in their order, each as a line of the first section only, unless that category
/// is switched off.
pub proof fn law_single_section(first: Seq<Seq<char>>, args: Args)
    requires
        !args.ignore_first_section,
    ensures
        report(first, Seq::empty(), args) == Seq::new(
            distinct(first).len(),
            |i: int| ClassifiedText { category: Category::FirstOnly, text: distinct(first)[i] },
        ),
        written_report(report(first, Seq::empty(), args)) == distinct(first),
{
    let none = Seq::<Seq<char>>::empty();
    lemma_single_section_upto(first, args, first.len() as int);
    let entries = report(first, none, args);
    assert(entries =~= Seq::new(
        distinct(first).len(),
        |i: int| ClassifiedText { category: Category::FirstOnly, text: distinct(first)[i] },
    ));
}

/// An input whose second section is empty is answered with the distinct lines of its first
/// section, in their order and without a prefix.
pub proof fn law_one_section_input(lines: Seq<Seq<char>>, args: Args)
    requires
        !args.ignore_first_section,
        sections_of(lines) is Ok,
        sections_of(lines)->Ok_0.1.len() == 0,
    ensures
        output_of(lines, args) == Ok::<_, CommsFault>(distinct(sections_of(lines)->Ok_0.0)),
{
    let first = sections_of(lines)->Ok_0.0;
    let second = sections_of(lines)->Ok_0.1;
    assert(second =~= Seq::<Seq<char>>::empty());
    law_single_section(first, args);
}

proof fn lemma_unbroken_run(lines: Seq<Seq<char>>, from: int)
    requires
        0 <= from <= lines.len(),
        forall|i: int| 0 <= i < lines.len() ==> !blank(#[trigger] lines[i]),
    ensures
        run_end(lines, from, false) == lines.len(),
        run_end(lines, from, true) == from,
    decreases lines.len() - from,
{
    if from < lines.len() {
        lemma_unbroken_run(lines, from + 1);
    }
}

/// An input without a blank line is one section: the whole input is the first section and
/// the second is empty.
pub proof fn law_unbroken_input(lines: Seq<Seq<char>>)
    requires
        forall|i: int| 0 <= i < lines.len() ==> !blank(#[trigger] lines[i]),
    ensures
        sections_of(lines) == Ok::<_, CommsFault>((lines, Seq::<Seq<char>>::empty())),
{
    lemma_unbroken_run(lines, 0);
    lemma_unbroken_run(lines, lines.len() as int);
    assert(lines.subrange(0, lines.len() as int) =~= lines);
    assert(lines.subrange(lines.len() as int, lines.len() as int) =~= Seq::<Seq<char>>::empty());
}

proof fn lemma_report_upto(first: Seq<Seq<char>>, second: Seq<Seq<char>>, args: Args, n: int)
    requires
        0 <= n <= (first + second).len(),
    ensures
        forall|i: int|
            0 <= i < report_upto(first, second, args, n).len() ==> (first + second).take(
                n,
            ).contains((#[trigger] report_upto(first, second, args, n)[i]).text),
        forall|i: int|
            0 <= i < report_upto(first, second, args, n).len() ==> category_of(
                (#[trigger] report_upto(first, second, args, n)[i]).text,
                first,
                second,
                args,
            ) == Some(report_upto(first, second, args, n)[i].category),
        forall|i: int, j: int|
            0 <= i < j < report_upto(first, second, args, n).len() ==> (#[trigger] report_upto(
                first,
                second,
                args,
                n,
            )[i]).text != (#[trigger] report_upto(first, second, args, n)[j]).text,
        forall|k: int|
            0 <= k < n && category_of((first + second)[k], first, second, args) is Some ==> occurs(
                report_upto(first, second, args, n),
                #[trigger] (first + second)[k],
            ),
    decreases n,
{
    if n > 0 {
        lemma_report_upto(first, second, args, n - 1);
        let all = first + second;
        let before = report_upto(first, second, args, n - 1);
        let now = report_upto(first, second, args, n);
        let line = all[n - 1];
        let prior = all.take(n - 1);
        assert(all.take(n)[n - 1] == line);
        assert forall|i: int| 0 <= i < before.len() implies all.take(n).contains(
            (#[trigger] before[i]).text,
        ) by {
            let k = choose|k: int| 0 <= k < prior.len() && prior[k] == before[i].text;
            assert(all.take(n)[k] == before[i].text);
        }
        match entry_at(first, second, args, n - 1) {
            Some(entry) => {
                assert forall|i: int| 0 <= i < before.len() implies (#[trigger] before[i]).text
                    != line by {
                    let k = choose|k: int| 0 <= k < prior.len() && prior[k] == before[i].text;
                    assert(all[k] != all[n - 1]);
                }
                assert(now[now.len() - 1].text == line);
                assert forall|k: int|
                    0 <= k < n && category_of(all[k], first, second, args) is Some implies occurs(
                    now,
                    #[trigger] all[k],
                ) by {
                    if k < n - 1 {
                        let i = choose|i: int|
                            0 <= i < before.len() && (#[trigger] before[i]).text == all[k];
                        assert(now[i].text == all[k]);
                    }
                }
            },
            None => {
                if category_of(line, first, second, args) is Some {
                    let j = choose|j: int| 0 <= j < n - 1 && #[trigger] all[j] == line;
                    assert(occurs(before, all[j]));
                }
            },
        }
    }
}

/// No report names a line twice, each line that it names stands under the category that is
/// the line's own, and it names exactly the lines of the input whose category is not
/// switched off.
pub proof fn law_each_line_once(first: Seq<Seq<char>>, second: Seq<Seq<char>>, args: Args)
    ensures
        forall|i: int, j: int|
            0 <= i < j < report(first, second, args).len() ==> (#[trigger] report(
                first,
                second,
                args,
            )[i]).text != (#[trigger] report(first, second, args)[j]).text,
        forall|i: int|
            0 <= i < report(first, second, args).len() ==> category_of(
                (#[trigger] report(first, second, args)[i]).text,
                first,
                second,
                args,
            ) == Some(report(first, second, args)[i].category),
        forall|line: Seq<char>|
            #[trigger] occurs(report(first, second, args), line) <==> category_of(
                line,
                first,
                second,
                args,
            ) is Some,
{
    let all = first + second;
    let entries = report(first, second, args);
    lemma_report_upto(first, second, args, all.len() as int);
    assert forall|line: Seq<char>| #[trigger]
        occurs(entries, line) <==> category_of(line, first, second, args) is Some by {
        if occurs(entries, line) {
            let i = choose|i: int| 0 <= i < entries.len() && (#[trigger] entries[i]).text == line;
            assert(category_of(entries[i].text, first, second, args) == Some(entries[i].category));
        }
        if category_of(line, first, second, args) is Some {
            lemma_categorised_is_input(line, first, second, args);
            let k = choose|k: int| 0 <= k < all.len() && all[k] == line;
            assert(occurs(entries, all[k]));
        }
    }
}

/// A line that has a category is a line of the input.
pub proof fn lemma_categorised_is_input(
    line: Seq<char>,
    first: Seq<Seq<char>>,
    second: Seq<Seq<char>>,
    args: Args,
)
    requires
        category_of(line, first, second, args) is Some,
    ensures
        (first + second).contains(line),
{
    let all = first + second;
    if first.contains(line) {
        let k = choose|k: int| 0 <= k < first.len() && first[k] == line;
        assert(all[k] == line);
    } else {
        let k = choose|k: int| 0 <= k < second.len() && second[k] == line;
        assert(all[first.len() + k] == line);
    }
}

/// The three categories exclude one another, and with no category switched off every line
/// of the input has one.
pub proof fn law_one_category(
    line: Seq<char>,
    first: Seq<Seq<char>>,
    second: Seq<Seq<char>>,
    args: Args,
)
    ensures
        !(first_only(first, second, args).contains(line) && second_only(
            first,
            second,
            args,
        ).contains(line)),
        !(first_only(first, second, args).contains(line) && common(first, second, args).contains(
            line,
        )),
        !(second_only(first, second, args).contains(line) && common(first, second, args).contains(
            line,
        )),
        (first + second).contains(line) && !args.ignore_first_section
            && !args.ignore_second_section && !args.ignore_common ==> category_of(
            line,
            first,
            second,
            args,
        ) is Some,
{
    let all = first + second;
    if all.contains(line) {
        let k = choose|k: int| 0 <= k < all.len() && all[k] == line;
        if k < first.len() {
            assert(first.contains(first[k]));
        } else {
            assert(second.contains(second[k - first.len()]));
        }
    }
}

/// With no category switched off, every line of the input stands in the report, at one
/// place and no other.
pub proof fn law_every_line_exactly_once(
    first: Seq<Seq<char>>,
    second: Seq<Seq<char>>,
    args: Args,
    line: Seq<char>,
)
    requires
        !args.ignore_first_section,
        !args.ignore_second_section,
        !args.ignore_common,
        (first + second).contains(line),
    ensures
        occurs(report(first, second, args), line),
        forall|i: int, j: int|
            0 <= i < report(first, second, args).len() && 0 <= j < report(
                first,
                second,
                args,
            ).len() && (#[trigger] report(first, second, args)[i]).text == line && (
            #[trigger] report(first, second, args)[j]).text == line ==> i == j,
{
    law_one_category(line, first, second, args);
    law_each_line_once(first, second, args);
    let entries = report(first, second, args);
    assert forall|i: int, j: int|
        0 <= i < entries.len() && 0 <= j < entries.len() && (#[trigger] entries[i]).text == line
            && (#[trigger] entries[j]).text == line implies i == j by {
        if i < j {
            assert(entries[i].text != entries[j].text);
        }
        if j < i {
            assert(entries[j].text != entries[i].text);
        }
    }
}

proof fn lemma_silent_upto(first: Seq<Seq<char>>, second: Seq<Seq<char>>, args: Args, n: int)
    requires
        args.ignore_first_section,
        args.ignore_second_section,
        args.ignore_common,
    ensures
        report_upto(first, second, args, n).len() == 0,
    decreases n,
{
    if n > 0 {
        lemma_silent_upto(first, second, args, n - 1);
    }
}

/// With all three categories switched off the report is empty, whatever the sections hold.
pub proof fn law_all_switched_off(first: Seq<Seq<char>>, second: Seq<Seq<char>>, args: Args)
    requires
        args.ignore_first_section,
        args.ignore_second_section,
        args.ignore_common,
    ensures
        report(first, second, args) == Seq::<ClassifiedText>::empty(),
        written_report(report(first, second, args)) == Seq::<Seq<char>>::empty(),
{
    lemma_silent_upto(first, second, args, (first + second).len() as int);
}

/// With all three categories switched off nothing is written for an input that has no
/// third section.
pub proof fn law_all_switched_off_output(lines: Seq<Seq<char>>, args: Args)
    requires
        args.ignore_first_section,
        args.ignore_second_section,
        args.ignore_common,
        sections_of(lines) is Ok,
    ensures
        output_of(lines, args) == Ok::<_, CommsFault>(Seq::<Seq<char>>::empty()),
{
    let first = sections_of(lines)->Ok_0.0;
    let second = sections_of(lines)->Ok_0.1;
    law_all_switched_off(first, second, args);
}

/// The lines that a report names, in its order.
pub open spec fn texts(entries: Seq<ClassifiedText>) -> Seq<Seq<char>> {
    Seq::new(entries.len(), |i: int| entries[i].text)
}

/// Tells of a line whether it has a category under which it is reported.
pub open spec fn has_category(first: Seq<Seq<char>>, second: Seq<Seq<char>>, args: Args) -> spec_fn(
    Seq<char>,
) -> bool {
    |line: Seq<char>| category_of(line, first, second, args) is Some
}

proof fn lemma_order_upto(first: Seq<Seq<char>>, second: Seq<Seq<char>>, args: Args, n: int)
    requires
        0 <= n <= (first + second).len(),
    ensures
        texts(report_upto(first, second, args, n)) == distinct_upto(first + second, n).filter(
            has_category(first, second, args),
        ),
    decreases n,
{
    reveal(Seq::filter);
    let all = first + second;
    if n > 0 {
        lemma_order_upto(first, second, args, n - 1);
        let seen = distinct_upto(all, n - 1);
        let line = all[n - 1];
        if first_seen_at(all, n - 1) {
            assert(seen.push(line).drop_last() =~= seen);
        }
    }
}

/// A report names the distinct lines of the input that have a category, in the order in
/// which they first occur in the first section followed by the second.
pub proof fn law_report_in_input_order(first: Seq<Seq<char>>, second: Seq<Seq<char>>, args: Args)
    ensures
        texts(report(first, second, args)) == distinct(first + second).filter(
            has_category(first, second, args),
        ),
{
    lemma_order_upto(first, second, args, (first + second).len() as int);
}

/// The switch for ignoring case changes no report.
pub proof fn law_ignore_case_is_inert(
    first: Seq<Seq<char>>,
    second: Seq<Seq<char>>,
    args: Args,
    ignore_case: bool,
)
    ensures
        report(first, second, Args { ignore_case, ..args }) == report(first, second, args),
{
    lemma_inert_upto(first, second, args, ignore_case, (first + second).len() as int);
}

proof fn lemma_inert_upto(
    first: Seq<Seq<char>>,
    second: Seq<Seq<char>>,
    args: Args,
    ignore_case: bool,
    n: int,
)
    ensures
        report_upto(first, second, Args { ignore_case, ..args }, n) == report_upto(
            first,
            second,
            args,
            n,
        ),
    decreases n,
{
    if n > 0 {
        lemma_inert_upto(first, second, args, ignore_case, n - 1);
    }
}

/// What a reader holds that takes the input line by line: its state and the two sections
/// as far as they are collected.
pub struct Reading {
    pub state: State,
    pub first: Seq<Seq<char>>,
    pub second: Seq<Seq<char>>,
}

/// What a reader holds after the first `n` lines that begins before the first section and
/// takes each line as the transition table says, or the fault of the first line that the
/// table refuses.
pub open spec fn read_upto(lines: Seq<Seq<char>>, n: int) -> Result<Reading, CommsFault>
    decreases n,
{
    if n <= 0 {
        Ok(
            Reading {
                state: State::BeforeFirstSection,
                first: Seq::empty(),
                second: Seq::empty(),
            },
        )
    } else {
        match read_upto(lines, n - 1) {
            Err(fault) => Err(fault),
            Ok(held) => {
                let line = lines[n - 1];
                let (state, placement) = transition(held.state, blank(line));
                match placement {
                    Placement::Skipped => Ok(Reading { state, ..held }),
                    Placement::First => Ok(Reading { state, first: held.first.push(line), ..held }),
                    Placement::Second => Ok(
                        Reading { state, second: held.second.push(line), ..held },
                    ),
                    Placement::Refused => Err(
                        CommsFault::ExtraSection { line_number: n as nat, line },
                    ),
                }
            },
        }
    }
}

proof fn lemma_read_upto(lines: Seq<Seq<char>>, n: int)
    requires
        0 <= n <= lines.len(),
    ensures
        match read_upto(lines, n) {
            Ok(held) => tracks(lines, n, held.state, held.first, held.second),
            Err(fault) => sections_of(lines) == Err::<(Seq<Seq<char>>, Seq<Seq<char>>), _>(fault),
        },
    decreases n,
{
    if n > 0 {
        lemma_read_upto(lines, n - 1);
        match read_upto(lines, n - 1) {
            Ok(held) => {
                lemma_tracks_step(lines, n - 1, held.state, held.first, held.second);
            },
            Err(_) => {},
        }
    } else {
        lemma_layout_ordered(lines);
    }
}

/// Taking the input line by line through the transition table gives the two sections of
/// the input, or the fault of its first line after the second section.
pub proof fn law_reading_gives_sections(lines: Seq<Seq<char>>)
    ensures
        match read_upto(lines, lines.len() as int) {
            Ok(held) => sections_of(lines) == Ok::<_, CommsFault>((held.first, held.second)),
            Err(fault) => sections_of(lines) == Err::<(Seq<Seq<char>>, Seq<Seq<char>>), _>(fault),
        },
{
    lemma_read_upto(lines, lines.len() as int);
    match read_upto(lines, lines.len() as int) {
        Ok(held) => {
            lemma_tracks_end(lines, held.state, held.first, held.second);
        },
        Err(_) => {},
    }
}

} // verus!
