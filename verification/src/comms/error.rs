//! What can go wrong in the section comparer.

use crate::text::{decimal, push_decimal};
use vstd::prelude::*;
use vstd::string::*;

verus! {

/// The two ways in which a run of the section comparer fails.
#[derive(Clone, Debug, PartialEq, Eq)]
pub enum CommsError {
    /// A command-line token is neither a switch nor a request for help.
    BadArgument { token: String },
    /// A line that is not blank follows the blank lines that end the second section.
    /// Lines are counted from 1.
    ExtraSection { line_number: usize, line: String },
}

/// The mathematical value of a [`CommsError`].
pub enum CommsFault {
    BadArgument { token: Seq<char> },
    ExtraSection { line_number: nat, line: Seq<char> },
}

impl DeepView for CommsError {
    type V = CommsFault;

    open spec fn deep_view(&self) -> CommsFault {
        match *self {
            CommsError::BadArgument { token } => CommsFault::BadArgument { token: token@ },
            CommsError::ExtraSection { line_number, line } => CommsFault::ExtraSection {
                line_number: line_number as nat,
                line: line@,
            },
        }
    }
}

/// The text in which a fault is reported.
pub open spec fn fault_message(fault: CommsFault) -> Seq<char> {
    match fault {
        CommsFault::BadArgument { token } => "Bad argument: "@ + token,
        CommsFault::ExtraSection { line_number, line } => "Found non-empty line "@ + decimal(
            line_number,
        ) + " after the second section: "@ + line,
    }
}

impl CommsError {
    /// The one-line message that reports this error.
    pub fn message(&self) -> (text: String)
        ensures
            text@ == fault_message(self.deep_view()),
    {
        let mut text = String::new();
        match self {
            CommsError::BadArgument { token } => {
                text.append("Bad argument: ");
                text.append(token.as_str());
            },
            CommsError::ExtraSection { line_number, line } => {
                text.append("Found non-empty line ");
                push_decimal(&mut text, *line_number as u64);
                text.append(" after the second section: ");
                text.append(line.as_str());
            },
        }
        text
    }
}

} // verus!
