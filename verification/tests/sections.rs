use line_filters::comms::error::CommsError;
use line_filters::comms::sections::{collect_sections, step, Placement, State};
use line_filters::text::{is_blank, is_white_space};

fn lines(text: &str) -> Vec<String> {
    text.lines().map(|l| l.to_string()).collect()
}

fn strings(list: &[&str]) -> Vec<String> {
    list.iter().map(|t| t.to_string()).collect()
}

#[test]
fn white_space_is_what_the_standard_library_says() {
    let mut code: u32 = 0;
    while code <= 0x10FFFF {
        if let Some(c) = char::from_u32(code) {
            assert_eq!(is_white_space(c), c.is_whitespace(), "U+{:04X}", code);
        }
        code += 1;
    }
}

#[test]
fn blank_lines() {
    assert!(is_blank(""));
    assert!(is_blank(" "));
    assert!(is_blank("\t"));
    assert!(is_blank(" \t \r"));
    assert!(is_blank("\u{a0}\u{3000}\u{2003}"));
    assert!(!is_blank("a"));
    assert!(!is_blank("  a  "));
    assert!(!is_blank("\u{200b}"));
    assert!(!is_blank(" . "));
}

#[test]
fn blank_agrees_with_trimming() {
    for line in ["", " ", "x", " x", "x ", "\t\t", "\u{85}", "\u{feff}", "é", " \u{1680} "] {
        assert_eq!(is_blank(line), line.trim().is_empty(), "{:?}", line);
    }
}

#[test]
fn transition_table() {
    assert_eq!(
        step(State::BeforeFirstSection, true),
        (State::BeforeFirstSection, Placement::Skipped)
    );
    assert_eq!(
        step(State::BeforeFirstSection, false),
        (State::CollectingFirstSection, Placement::First)
    );
    assert_eq!(
        step(State::CollectingFirstSection, true),
        (State::BeforeSecondSection, Placement::Skipped)
    );
    assert_eq!(
        step(State::CollectingFirstSection, false),
        (State::CollectingFirstSection, Placement::First)
    );
    assert_eq!(
        step(State::BeforeSecondSection, true),
        (State::BeforeSecondSection, Placement::Skipped)
    );
    assert_eq!(
        step(State::BeforeSecondSection, false),
        (State::CollectingSecondSection, Placement::Second)
    );
    assert_eq!(step(State::CollectingSecondSection, true), (State::Finished, Placement::Skipped));
    assert_eq!(
        step(State::CollectingSecondSection, false),
        (State::CollectingSecondSection, Placement::Second)
    );
    assert_eq!(step(State::Finished, true), (State::Finished, Placement::Skipped));
    assert_eq!(step(State::Finished, false), (State::Finished, Placement::Refused));
}

#[test]
fn two_sections() {
    assert_eq!(
        collect_sections(&lines("a\nb\na\n\nb\nc\n")),
        Ok((strings(&["a", "b", "a"]), strings(&["b", "c"])))
    );
}

#[test]
fn empty_input_has_two_empty_sections() {
    assert_eq!(collect_sections(&lines("")), Ok((vec![], vec![])));
    assert_eq!(collect_sections(&lines("\n\n  \n")), Ok((vec![], vec![])));
}

#[test]
fn one_section_only() {
    assert_eq!(collect_sections(&lines("x\ny\n")), Ok((strings(&["x", "y"]), vec![])));
    assert_eq!(collect_sections(&lines("\n\nx\ny\n\n\n")), Ok((strings(&["x", "y"]), vec![])));
}

#[test]
fn blank_runs_are_absorbed() {
    assert_eq!(
        collect_sections(&lines("\n \n\t\nfirst\n\n   \n\nsecond\nmore\n\n\n \n")),
        Ok((strings(&["first"]), strings(&["second", "more"])))
    );
}

#[test]
fn lines_keep_their_white_space() {
    assert_eq!(
        collect_sections(&lines("  a \n\tb\n \nc  \n")),
        Ok((strings(&["  a ", "\tb"]), strings(&["c  "])))
    );
}

#[test]
fn a_third_section_is_refused() {
    assert_eq!(
        collect_sections(&lines("a\n\nb\n\nc\n")),
        Err(CommsError::ExtraSection { line_number: 5, line: "c".to_string() })
    );
}

#[test]
fn the_refused_line_is_counted_from_one() {
    let input = "\n\none\ntwo\n\n\nthree\n   \n\t\n  four  \nfive\n";
    assert_eq!(
        collect_sections(&lines(input)),
        Err(CommsError::ExtraSection { line_number: 10, line: "  four  ".to_string() })
    );
}

#[test]
fn extra_section_message() {
    let error = collect_sections(&lines("a\n\nb\n\nc d\n")).unwrap_err();
    assert_eq!(error.message(), "Found non-empty line 5 after the second section: c d");
    let far = CommsError::ExtraSection { line_number: 1234567890, line: String::new() };
    assert_eq!(far.message(), "Found non-empty line 1234567890 after the second section: ");
    let top = CommsError::ExtraSection { line_number: usize::MAX, line: "z".to_string() };
    assert_eq!(
        top.message(),
        format!("Found non-empty line {} after the second section: z", usize::MAX)
    );
}
