//! The section comparer from input lines to output lines.

use crate::comms::args::Args;
use crate::comms::error::{CommsError, CommsFault};
use crate::comms::report::{classify, render_report, report, written_report};
use crate::comms::sections::{collect_sections, sections_of};
use vstd::prelude::*;

verus! {

/// What the section comparer writes for the input `lines`, or the fault that the input
/// gives: the report on the two sections of the input, as it is written out.
pub open spec fn output_of(lines: Seq<Seq<char>>, args: Args) -> Result<Seq<Seq<char>>, CommsFault> {
    match sections_of(lines) {
        Ok((first, second)) => Ok(written_report(report(first, second, args))),
        Err(fault) => Err(fault),
    }
}

/// Compares the two sections of `lines` and returns the lines to write.
///
/// A line that is in the first section only is written as it is, one that is in the second
/// only behind one tab, one that is in both behind two tabs; each distinct line once, in
/// the order of the input. Nothing is returned of an input that a third section makes
/// invalid.
pub fn compare(lines: &Vec<String>, args: &Args) -> (result: Result<Vec<String>, CommsError>)
    ensures
        match result {
            Ok(out) => output_of(lines.deep_view(), *args) == Ok::<_, CommsFault>(out.deep_view()),
            Err(error) => output_of(lines.deep_view(), *args) == Err::<Seq<Seq<char>>, _>(
                error.deep_view(),
            ),
        },
{
    match collect_sections(lines) {
        Ok((first, second)) => {
            let entries = classify(&first, &second, args);
            Ok(render_report(&entries))
        },
        Err(error) => Err(error),
    }
}

} // verus!
