use line_filters::comms::args::{get_arguments, Args};
use line_filters::comms::error::CommsError;
use line_filters::comms::report::{classify, render_report, Category, ClassifiedLine};
use line_filters::comms::run::compare;

fn lines(text: &str) -> Vec<String> {
    text.lines().map(|l| l.to_string()).collect()
}

fn strings(list: &[&str]) -> Vec<String> {
    list.iter().map(|t| t.to_string()).collect()
}

fn switches(token: &str) -> Args {
    if token.is_empty() {
        get_arguments(&vec![]).unwrap()
    } else {
        get_arguments(&vec![token.to_string()]).unwrap()
    }
}

fn entry(category: Category, text: &str) -> ClassifiedLine {
    ClassifiedLine { category, text: text.to_string() }
}

#[test]
fn example_with_three_categories() {
    let out = compare(&lines("a\nb\na\n\nb\nc\n"), &switches("")).unwrap();
    assert_eq!(out, strings(&["a", "\t\tb", "\tc"]));
}

#[test]
fn example_classified() {
    let report = classify(&strings(&["a", "b", "a"]), &strings(&["b", "c"]), &switches(""));
    assert_eq!(
        report,
        vec![
            entry(Category::FirstOnly, "a"),
            entry(Category::Common, "b"),
            entry(Category::SecondOnly, "c"),
        ]
    );
}

#[test]
fn third_section_gives_the_error_and_no_output() {
    let result = compare(&lines("a\n\nb\n\n\nc\nd\n"), &switches(""));
    assert_eq!(result, Err(CommsError::ExtraSection { line_number: 6, line: "c".to_string() }));
    assert_eq!(
        result.unwrap_err().message(),
        "Found non-empty line 6 after the second section: c"
    );
}

#[test]
fn third_section_is_an_error_under_every_switch() {
    let result = compare(&lines("a\n\nb\n\nc\n"), &switches("-123"));
    assert_eq!(result, Err(CommsError::ExtraSection { line_number: 5, line: "c".to_string() }));
}

#[test]
fn one_section_gives_its_distinct_lines() {
    let out = compare(&lines("pear\napple\npear\nfig\napple\n"), &switches("")).unwrap();
    assert_eq!(out, strings(&["pear", "apple", "fig"]));
    let padded = compare(&lines("\n\npear\napple\npear\n\n\n"), &switches("")).unwrap();
    assert_eq!(padded, strings(&["pear", "apple"]));
}

#[test]
fn every_line_is_written_once() {
    let input = "a\nb\nc\na\nb\nd\n\nc\nd\nd\ne\na\ne\n";
    let out = compare(&lines(input), &switches("")).unwrap();
    assert_eq!(out, strings(&["\t\ta", "b", "\t\tc", "\t\td", "\te"]));
    let mut texts: Vec<&str> = out.iter().map(|l| l.trim_start_matches('\t')).collect();
    texts.sort();
    let before = texts.len();
    texts.dedup();
    assert_eq!(texts.len(), before);
}

#[test]
fn all_switches_give_no_output() {
    let input = "a\nb\nc\n\nb\nc\nd\n";
    assert_eq!(compare(&lines(input), &switches("-123")).unwrap(), Vec::<String>::new());
    let apart = get_arguments(&strings(&["-1", "-2", "-3"])).unwrap();
    assert_eq!(compare(&lines(input), &apart).unwrap(), Vec::<String>::new());
    assert_eq!(compare(&lines(""), &apart).unwrap(), Vec::<String>::new());
}

#[test]
fn each_switch_suppresses_its_category() {
    let input = "a\nb\n\nb\nc\n";
    assert_eq!(compare(&lines(input), &switches("-1")).unwrap(), strings(&["\t\tb", "\tc"]));
    assert_eq!(compare(&lines(input), &switches("-2")).unwrap(), strings(&["a", "\t\tb"]));
    assert_eq!(compare(&lines(input), &switches("-3")).unwrap(), strings(&["a", "\tc"]));
    assert_eq!(compare(&lines(input), &switches("-12")).unwrap(), strings(&["\t\tb"]));
    assert_eq!(compare(&lines(input), &switches("-13")).unwrap(), strings(&["\tc"]));
    assert_eq!(compare(&lines(input), &switches("-23")).unwrap(), strings(&["a"]));
}

#[test]
fn first_switch_does_not_hide_the_first_section() {
    let out = compare(&lines("a\nb\n\nb\n"), &switches("-1")).unwrap();
    assert_eq!(out, strings(&["\t\tb"]));
}

#[test]
fn ignore_case_changes_nothing() {
    let input = "Apple\napple\n\nAPPLE\napple\n";
    let plain = compare(&lines(input), &switches("")).unwrap();
    let with_i = compare(&lines(input), &switches("-i")).unwrap();
    assert_eq!(plain, strings(&["Apple", "\t\tapple", "\tAPPLE"]));
    assert_eq!(with_i, plain);
}

#[test]
fn lines_differ_by_their_white_space() {
    let out = compare(&lines("a\na \n\n a\na\n"), &switches("")).unwrap();
    assert_eq!(out, strings(&["\t\ta", "a ", "\t a"]));
}

#[test]
fn common_line_is_written_where_it_first_occurs() {
    let out = compare(&lines("x\ny\n\ny\nx\nz\n"), &switches("")).unwrap();
    assert_eq!(out, strings(&["\t\tx", "\t\ty", "\tz"]));
}

#[test]
fn empty_sections_give_an_empty_report() {
    assert_eq!(classify(&vec![], &vec![], &switches("")), vec![]);
    assert_eq!(compare(&lines("\n \n"), &switches("")).unwrap(), Vec::<String>::new());
}

#[test]
fn rendering_puts_tabs_in_front() {
    assert_eq!(entry(Category::FirstOnly, "x y").render(), "x y");
    assert_eq!(entry(Category::SecondOnly, "x y").render(), "\tx y");
    assert_eq!(entry(Category::Common, "x y").render(), "\t\tx y");
    assert_eq!(entry(Category::Common, "").render(), "\t\t");
    let report = vec![entry(Category::SecondOnly, "b"), entry(Category::FirstOnly, "\ta")];
    assert_eq!(render_report(&report), strings(&["\tb", "\ta"]));
}

#[test]
fn classify_takes_sections_as_given() {
    let report = classify(&strings(&["", "a", ""]), &strings(&["a", " "]), &switches(""));
    assert_eq!(
        report,
        vec![
            entry(Category::FirstOnly, ""),
            entry(Category::Common, "a"),
            entry(Category::SecondOnly, " "),
        ]
    );
}
