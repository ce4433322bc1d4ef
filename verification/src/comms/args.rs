//! The command-line switches of the section comparer.

use crate::comms::error::{CommsError, CommsFault};
use crate::matcher::matches_flag_pattern;
use crate::text::{contains_char, same_text};
use vstd::prelude::*;
use vstd::string::*;

verus! {

/// What the command line asks for.
#[derive(Clone, Copy, Debug, PartialEq, Eq, Structural)]
pub struct Args {
    /// Leave out the lines that are in the first section only.
    pub ignore_first_section: bool,
    /// Leave out the lines that are in the second section only.
    pub ignore_second_section: bool,
    /// Leave out the lines that are in both sections.
    pub ignore_common: bool,
    /// Recognised on the command line and stored; it changes no comparison.
    pub ignore_case: bool,
    /// Show the usage text and do nothing else.
    pub print_help: bool,
}

/// The tokens that hold switches, as a regular expression.
pub const FLAG_PATTERN: &'static str = "^-[123i]+$";

/// One of the four switch characters.
pub open spec fn is_flag_char(c: char) -> bool {
    c == '1' || c == '2' || c == '3' || c == 'i'
}

/// A token that holds switches: a hyphen and then one or more switch characters.
pub open spec fn is_flag_token(token: Seq<char>) -> bool {
    &&& token.len() >= 2
    &&& token[0] == '-'
    &&& forall|i: int| 1 <= i < token.len() ==> is_flag_char(#[trigger] token[i])
}

/// A token that asks for the usage text.
pub open spec fn is_help_token(token: Seq<char>) -> bool {
    token == "-h"@ || token == "--help"@
}

/// Reading goes on after a token that holds switches and does not ask for help.
pub open spec fn reads_on(token: Seq<char>) -> bool {
    is_flag_token(token) && !is_help_token(token)
}

/// Where reading the command line stops, from position `from` on: at the first token
/// after which reading does not go on, or after the last token where there is none.
pub open spec fn stop_from(tokens: Seq<Seq<char>>, from: int) -> int
    decreases tokens.len() - from,
{
    if from < 0 || from >= tokens.len() {
        tokens.len() as int
    } else if !reads_on(tokens[from]) {
        from
    } else {
        stop_from(tokens, from + 1)
    }
}

/// Where reading the command line stops.
pub open spec fn stop_index(tokens: Seq<Seq<char>>) -> int {
    stop_from(tokens, 0)
}

/// One of the first `n` tokens holds the character `flag`.
pub open spec fn held_before(tokens: Seq<Seq<char>>, n: int, flag: char) -> bool {
    exists|i: int| 0 <= i < n && (#[trigger] tokens[i]).contains(flag)
}

/// A switch is on when a token that was read before reading stopped holds its character.
pub open spec fn switched_on(tokens: Seq<Seq<char>>, flag: char) -> bool {
    held_before(tokens, stop_index(tokens), flag)
}

/// What a command line asks for, or the fault that its first bad token gives.
///
/// A request for help ends the reading: the tokens after it are not looked at, and the
/// switches before it stay on.
pub open spec fn parsed(tokens: Seq<Seq<char>>) -> Result<Args, CommsFault> {
    let stop = stop_index(tokens);
    if stop < tokens.len() && !is_help_token(tokens[stop]) {
        Err(CommsFault::BadArgument { token: tokens[stop] })
    } else {
        Ok(
            Args {
                ignore_first_section: switched_on(tokens, '1'),
                ignore_second_section: switched_on(tokens, '2'),
                ignore_common: switched_on(tokens, '3'),
                ignore_case: switched_on(tokens, 'i'),
                print_help: stop < tokens.len(),
            },
        )
    }
}

/// Reading stops within the command line and not before it begins.
pub proof fn lemma_stop_from_bounds(tokens: Seq<Seq<char>>, from: int)
    requires
        0 <= from <= tokens.len(),
    ensures
        from <= stop_from(tokens, from) <= tokens.len(),
    decreases tokens.len() - from,
{
    if from < tokens.len() && reads_on(tokens[from]) {
        lemma_stop_from_bounds(tokens, from + 1);
    }
}

/// Reading that has reached position `i` goes on past it where it reads on after the token
/// there, and stops there where it does not.
pub proof fn lemma_stop_from_step(tokens: Seq<Seq<char>>, from: int, i: int)
    requires
        0 <= from <= i <= tokens.len(),
        stop_from(tokens, from) >= i,
    ensures
        stop_from(tokens, from) <= tokens.len(),
        i < tokens.len() && reads_on(tokens[i]) ==> stop_from(tokens, from) >= i + 1,
        i < tokens.len() && !reads_on(tokens[i]) ==> stop_from(tokens, from) == i,
    decreases tokens.len() - from,
{
    lemma_stop_from_bounds(tokens, from);
    if from < i {
        lemma_stop_from_step(tokens, from + 1, i);
    } else if from < tokens.len() {
        lemma_stop_from_bounds(tokens, from + 1);
    }
}

/// Tells whether `token` asks for the usage text.
pub fn is_help(token: &str) -> (r: bool)
    ensures
        r == is_help_token(token@),
{
    same_text(token, "-h") || same_text(token, "--help")
}

/// Reads the command line, without the program's name.
///
/// Each token is a request for help (`-h`, `--help`), which ends the reading, or a hyphen
/// followed by one or more of the switches `1`, `2`, `3` and `i`. The first token that is
/// neither is an error, which names it.
pub fn get_arguments(tokens: &Vec<String>) -> (result: Result<Args, CommsError>)
    ensures
        match result {
            Ok(args) => parsed(tokens.deep_view()) == Ok::<Args, CommsFault>(args),
            Err(error) => parsed(tokens.deep_view()) == Err::<Args, CommsFault>(
                error.deep_view(),
            ),
        },
{
    let ghost texts = tokens.deep_view();
    let mut args = Args {
        ignore_first_section: false,
        ignore_second_section: false,
        ignore_common: false,
        ignore_case: false,
        print_help: false,
    };
    proof {
        lemma_stop_from_bounds(texts, 0);
    }
    let mut i: usize = 0;
    while i < tokens.len()
        invariant
            i <= tokens.len(),
            texts == tokens.deep_view(),
            stop_index(texts) >= i,
            args.ignore_first_section == held_before(texts, i as int, '1'),
            args.ignore_second_section == held_before(texts, i as int, '2'),
            args.ignore_common == held_before(texts, i as int, '3'),
            args.ignore_case == held_before(texts, i as int, 'i'),
            !args.print_help,
        decreases tokens.len() - i,
    {
        let token = tokens[i].as_str();
        proof {
            lemma_stop_from_step(texts, 0, i as int);
        }
        if is_help(token) {
            args.print_help = true;
            return Ok(args);
        } else if matches_flag_pattern(FLAG_PATTERN, token) {
            if contains_char(token, '1') {
                args.ignore_first_section = true;
            }
            if contains_char(token, '2') {
                args.ignore_second_section = true;
            }
            if contains_char(token, '3') {
                args.ignore_common = true;
            }
            if contains_char(token, 'i') {
                args.ignore_case = true;
            }
            proof {
                lemma_held_before_step(texts, i as int, '1');
                lemma_held_before_step(texts, i as int, '2');
                lemma_held_before_step(texts, i as int, '3');
                lemma_held_before_step(texts, i as int, 'i');
            }
        } else {
            return Err(CommsError::BadArgument { token: tokens[i].clone() });
        }
        i = i + 1;
    }
    proof {
        lemma_stop_from_step(texts, 0, i as int);
    }
    Ok(args)
}

/// One more token holds a character where it or an earlier token does.
pub proof fn lemma_held_before_step(tokens: Seq<Seq<char>>, n: int, flag: char)
    requires
        0 <= n < tokens.len(),
    ensures
        held_before(tokens, n + 1, flag) == (held_before(tokens, n, flag) || tokens[n].contains(
            flag,
        )),
{
    if held_before(tokens, n + 1, flag) {
        let i = choose|i: int| 0 <= i < n + 1 && (#[trigger] tokens[i]).contains(flag);
        if i < n {
            assert(held_before(tokens, n, flag));
        }
    }
    if held_before(tokens, n, flag) {
        let i = choose|i: int| 0 <= i < n && (#[trigger] tokens[i]).contains(flag);
        assert(0 <= i < n + 1 && tokens[i].contains(flag));
    }
    if tokens[n].contains(flag) {
        assert(0 <= n < n + 1 && tokens[n].contains(flag));
    }
}

/// The usage text.
pub const HELP_TEXT: &'static str =
    "A version of [comm] command that works with a [s]ingle file (therefore \"comms\"). The input is split into two sections, separated by empty or blank lines. inputs The empty lines at the beginning and the end of the file are ignored. The content for parsing is taken from STDIN.\n\nThe sections do not need to be sorted, internally comms works on sets. The output is printed in the order of the original sections.\n\nThe lines are printed only once, even if the same line appears many times.\n\nUsage: comms -[123]\n\nOptions:\n\n    -1      Ignore lines only in the first section\n    -2      Ignore lines only in the second section\n    -3      Ignore lines common to both sections";

/// The usage text that a request for help is answered with.
pub fn help_text() -> (text: &'static str)
    ensures
        text@ == HELP_TEXT@,
{
    HELP_TEXT
}

} // verus!
