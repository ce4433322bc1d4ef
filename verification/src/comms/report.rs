//! Classifying the lines of two sections and laying out the report.

use crate::comms::args::Args;
use vstd::hash_set::StringHashSet;
use vstd::prelude::*;
use vstd::string::*;

verus! {

/// The three kinds of line in a report. A line belongs to exactly one of them.
#[derive(Clone, Copy, Debug, PartialEq, Eq, Structural)]
pub enum Category {
    /// In the first section and not in the second.
    FirstOnly,
    /// In the second section and not in the first.
    SecondOnly,
    /// In both sections.
    Common,
}

/// One line of a report: a line of the input with the category it fell into.
#[derive(Clone, Debug, PartialEq, Eq)]
pub struct ClassifiedLine {
    pub category: Category,
    pub text: String,
}

/// The mathematical value of a [`ClassifiedLine`].
pub struct ClassifiedText {
    pub category: Category,
    pub text: Seq<char>,
}

impl DeepView for ClassifiedLine {
    type V = ClassifiedText;

    open spec fn deep_view(&self) -> ClassifiedText {
        ClassifiedText { category: self.category, text: self.text@ }
    }
}

/// The lines to report as being in the first section only: the set difference of the two
/// sections, or nothing where that category is switched off.
pub open spec fn first_only(first: Seq<Seq<char>>, second: Seq<Seq<char>>, args: Args) -> Set<
    Seq<char>,
> {
    if args.ignore_first_section {
        Set::empty()
    } else {
        first.to_set().difference(second.to_set())
    }
}

/// The lines to report as being in the second section only.
pub open spec fn second_only(first: Seq<Seq<char>>, second: Seq<Seq<char>>, args: Args) -> Set<
    Seq<char>,
> {
    if args.ignore_second_section {
        Set::empty()
    } else {
        second.to_set().difference(first.to_set())
    }
}

/// The lines to report as being in both sections: the intersection of the two sections, or
/// nothing where that category is switched off.
pub open spec fn common(first: Seq<Seq<char>>, second: Seq<Seq<char>>, args: Args) -> Set<
    Seq<char>,
> {
    if args.ignore_common {
        Set::empty()
    } else {
        first.to_set().intersect(second.to_set())
    }
}

/// The category under which `line` is reported, if it is reported at all.
pub open spec fn category_of(
    line: Seq<char>,
    first: Seq<Seq<char>>,
    second: Seq<Seq<char>>,
    args: Args,
) -> Option<Category> {
    if first_only(first, second, args).contains(line) {
        Some(Category::FirstOnly)
    } else if second_only(first, second, args).contains(line) {
        Some(Category::SecondOnly)
    } else if common(first, second, args).contains(line) {
        Some(Category::Common)
    } else {
        None
    }
}

/// Position `i` of `lines` holds a line that no earlier position holds.
pub open spec fn first_seen_at(lines: Seq<Seq<char>>, i: int) -> bool {
    forall|j: int| 0 <= j < i ==> #[trigger] lines[j] != lines[i]
}

/// What position `i` of the first section followed by the second adds to the report: the
/// line with its category where the line is seen there for the first time and its category
/// is not switched off, and nothing otherwise.
pub open spec fn entry_at(first: Seq<Seq<char>>, second: Seq<Seq<char>>, args: Args, i: int) -> Option<
    ClassifiedText,
> {
    let all = first + second;
    match category_of(all[i], first, second, args) {
        Some(category) => if first_seen_at(all, i) {
            Some(ClassifiedText { category, text: all[i] })
        } else {
            None
        },
        None => None,
    }
}

/// The report on the first `n` positions of the first section followed by the second.
pub open spec fn report_upto(first: Seq<Seq<char>>, second: Seq<Seq<char>>, args: Args, n: int) -> Seq<
    ClassifiedText,
>
    decreases n,
{
    if n <= 0 {
        Seq::empty()
    } else {
        let before = report_upto(first, second, args, n - 1);
        match entry_at(first, second, args, n - 1) {
            Some(entry) => before.push(entry),
            None => before,
        }
    }
}

/// The report on two sections: every distinct line once, where it first occurs in the
/// first section followed by the second, under its category, without the lines of the
/// categories that `args` switches off.
pub open spec fn report(first: Seq<Seq<char>>, second: Seq<Seq<char>>, args: Args) -> Seq<
    ClassifiedText,
> {
    report_upto(first, second, args, (first + second).len() as int)
}

/// The set of the lines in `lines`.
fn line_set(lines: &Vec<String>) -> (set: StringHashSet)
    ensures
        set@ == lines.deep_view().to_set(),
{
    let mut set = StringHashSet::new();
    let mut i: usize = 0;
    while i < lines.len()
        invariant
            i <= lines.len(),
            set@ == lines.deep_view().take(i as int).to_set(),
        decreases lines.len() - i,
    {
        set.insert(lines[i].clone());
        proof {
            let texts = lines.deep_view();
            assert(texts.take(i + 1) =~= texts.take(i as int).push(texts[i as int]));
            lemma_push_to_set(texts.take(i as int), texts[i as int]);
        }
        i = i + 1;
    }
    proof {
        assert(lines.deep_view().take(i as int) =~= lines.deep_view());
    }
    set
}

/// The set of a sequence with one more item is the set of the sequence with that item.
proof fn lemma_push_to_set(lines: Seq<Seq<char>>, line: Seq<char>)
    ensures
        lines.push(line).to_set() == lines.to_set().insert(line),
{
    let longer = lines.push(line);
    assert forall|x: Seq<char>| longer.to_set().contains(x) <==> lines.to_set().insert(
        line,
    ).contains(x) by {
        if longer.contains(x) {
            let k = choose|k: int| 0 <= k < longer.len() && longer[k] == x;
            if k < lines.len() {
                assert(lines[k] == x);
            }
        }
        if lines.contains(x) {
            let k = choose|k: int| 0 <= k < lines.len() && lines[k] == x;
            assert(longer[k] == x);
        }
        if x == line {
            assert(longer[lines.len() as int] == x);
        }
    }
}

/// Takes one line of the input into the report.
fn visit(
    line: &String,
    in_first: &StringHashSet,
    in_second: &StringHashSet,
    args: &Args,
    seen: &mut StringHashSet,
    out: &mut Vec<ClassifiedLine>,
    Ghost(first): Ghost<Seq<Seq<char>>>,
    Ghost(second): Ghost<Seq<Seq<char>>>,
    Ghost(n): Ghost<int>,
)
    requires
        in_first@ == first.to_set(),
        in_second@ == second.to_set(),
        0 <= n < (first + second).len(),
        (first + second)[n] == line@,
        old(seen)@ == (first + second).take(n).to_set(),
        old(out).deep_view() == report_upto(first, second, *args, n),
    ensures
        final(seen)@ == (first + second).take(n + 1).to_set(),
        final(out).deep_view() == report_upto(first, second, *args, n + 1),
{
    let ghost all = first + second;
    let ghost earlier = old(out).deep_view();
    let fresh = seen.insert(line.clone());
    proof {
        assert(all.take(n + 1) =~= all.take(n).push(all[n]));
        lemma_push_to_set(all.take(n), all[n]);
        if fresh {
            assert forall|j: int| 0 <= j < n implies #[trigger] all[j] != all[n] by {
                if all[j] == all[n] {
                    assert(all.take(n)[j] == line@);
                }
            }
        } else {
            let k = choose|k: int| 0 <= k < all.take(n).len() && all.take(n)[k] == line@;
            assert(all[k] == all[n]);
        }
    }
    if fresh {
        let here = in_first.contains(line.as_str());
        let there = in_second.contains(line.as_str());
        let category = if here && !there {
            if args.ignore_first_section {
                None
            } else {
                Some(Category::FirstOnly)
            }
        } else if there && !here {
            if args.ignore_second_section {
                None
            } else {
                Some(Category::SecondOnly)
            }
        } else if here && there {
            if args.ignore_common {
                None
            } else {
                Some(Category::Common)
            }
        } else {
            None
        };
        match category {
            Some(category) => {
                out.push(ClassifiedLine { category, text: line.clone() });
                assert(out.deep_view() =~= earlier.push(
                    ClassifiedText { category, text: line@ },
                ));
            },
            None => {},
        }
    }
}

/// Classifies the lines of two sections.
///
/// The report names every distinct line at most once, in the order in which the lines
/// first occur in the first section followed by the second.
pub fn classify(first: &Vec<String>, second: &Vec<String>, args: &Args) -> (out: Vec<
    ClassifiedLine,
>)
    ensures
        out.deep_view() == report(first.deep_view(), second.deep_view(), *args),
{
    let in_first = line_set(first);
    let in_second = line_set(second);
    let mut seen = StringHashSet::new();
    let mut out: Vec<ClassifiedLine> = Vec::new();
    let ghost one = first.deep_view();
    let ghost two = second.deep_view();
    let mut i: usize = 0;
    while i < first.len()
        invariant
            i <= first.len(),
            one == first.deep_view(),
            two == second.deep_view(),
            in_first@ == one.to_set(),
            in_second@ == two.to_set(),
            seen@ == (one + two).take(i as int).to_set(),
            out.deep_view() == report_upto(one, two, *args, i as int),
        decreases first.len() - i,
    {
        visit(
            &first[i],
            &in_first,
            &in_second,
            args,
            &mut seen,
            &mut out,
            Ghost(one),
            Ghost(two),
            Ghost(i as int),
        );
        i = i + 1;
    }
    let mut k: usize = 0;
    while k < second.len()
        invariant
            k <= second.len(),
            one == first.deep_view(),
            two == second.deep_view(),
            in_first@ == one.to_set(),
            in_second@ == two.to_set(),
            seen@ == (one + two).take(one.len() + k).to_set(),
            out.deep_view() == report_upto(one, two, *args, one.len() + k),
        decreases second.len() - k,
    {
        visit(
            &second[k],
            &in_first,
            &in_second,
            args,
            &mut seen,
            &mut out,
            Ghost(one),
            Ghost(two),
            Ghost(one.len() + k),
        );
        k = k + 1;
    }
    out
}

/// What stands in front of a line of the given category: nothing, one tab or two.
pub open spec fn prefix(category: Category) -> Seq<char> {
    match category {
        Category::FirstOnly => Seq::empty(),
        Category::SecondOnly => seq!['\t'],
        Category::Common => seq!['\t', '\t'],
    }
}

/// A line of the report as it is written out.
pub open spec fn written(entry: ClassifiedText) -> Seq<char> {
    prefix(entry.category) + entry.text
}

/// A report as it is written out, line by line.
pub open spec fn written_report(entries: Seq<ClassifiedText>) -> Seq<Seq<char>> {
    Seq::new(entries.len(), |i: int| written(entries[i]))
}

impl ClassifiedLine {
    /// The line as it is written out: its text behind the prefix of its category.
    pub fn render(&self) -> (line: String)
        ensures
            line@ == written(self.deep_view()),
    {
        let mut line = String::new();
        proof {
            reveal_strlit("\t");
            reveal_strlit("\t\t");
        }
        match self.category {
            Category::FirstOnly => {},
            Category::SecondOnly => {
                line.append("\t");
            },
            Category::Common => {
                line.append("\t\t");
            },
        }
        line.append(self.text.as_str());
        line
    }
}

/// Writes a report out, line by line.
pub fn render_report(entries: &Vec<ClassifiedLine>) -> (lines: Vec<String>)
    ensures
        lines.deep_view() == written_report(entries.deep_view()),
{
    let mut lines: Vec<String> = Vec::new();
    let mut i: usize = 0;
    while i < entries.len()
        invariant
            i <= entries.len(),
            lines.len() == i,
            forall|k: int| 0 <= k < i ==> (#[trigger] lines@[k])@ == written(entries@[k].deep_view()),
        decreases entries.len() - i,
    {
        lines.push(entries[i].render());
        i = i + 1;
    }
    lines
}

} // verus!
