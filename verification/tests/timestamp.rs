use line_filters::timestamp::literal::{check_groups, check_table, read_field, read_timestamp};
use line_filters::timestamp::rewrite::{
    normalize_line, rewrite_line, RewriteError, TIMESTAMP_PATTERN,
};
use line_filters::timestamp::spans::{cut, fits, rest_from, slice, Span};
use line_filters::timestamp::stamp::{Shape, Timestamp};

fn stamp(fields: [u32; 7]) -> Timestamp {
    Timestamp {
        year: fields[0],
        month: fields[1],
        day: fields[2],
        hour: fields[3],
        minute: fields[4],
        second: fields[5],
        microsecond: fields[6],
    }
}

fn span(start: usize, end: usize) -> Option<Span> {
    Some(Span { start, end })
}

#[test]
fn literal_with_five_fields() {
    assert_eq!(
        normalize_line("x = datetime.datetime(2023, 5, 1, 10, 30)"),
        Ok("x = 2023-05-01T10:30Z".to_string())
    );
}

#[test]
fn literal_with_microseconds_and_utc_marker() {
    let line = "datetime.datetime(2023, 5, 1, 10, 30, 15, 500000, tzinfo=datetime.timezone.utc)";
    assert_eq!(normalize_line(line), Ok("2023-05-01T10:30:15.500Z".to_string()));
    let within = format!("created={} # when", line);
    assert_eq!(normalize_line(&within), Ok("created=2023-05-01T10:30:15.500Z # when".to_string()));
}

#[test]
fn zero_seconds_are_not_shown() {
    assert_eq!(
        normalize_line("datetime.datetime(2023, 5, 1, 10, 30, 0, 0)"),
        Ok("2023-05-01T10:30Z".to_string())
    );
    assert_eq!(
        normalize_line("datetime.datetime(2023, 5, 1, 10, 30, 0)"),
        Ok("2023-05-01T10:30Z".to_string())
    );
}

#[test]
fn seconds_without_microseconds() {
    assert_eq!(
        normalize_line("datetime.datetime(2023, 5, 1, 10, 30, 15)"),
        Ok("2023-05-01T10:30:15Z".to_string())
    );
    assert_eq!(
        normalize_line("datetime.datetime(2023, 5, 1, 10, 30, 15, 0)"),
        Ok("2023-05-01T10:30:15Z".to_string())
    );
}

#[test]
fn microseconds_below_a_millisecond_collapse() {
    assert_eq!(
        normalize_line("datetime.datetime(2023, 5, 1, 10, 30, 15, 500)"),
        Ok("2023-05-01T10:30:15Z".to_string())
    );
    assert_eq!(
        normalize_line("datetime.datetime(2023, 5, 1, 10, 30, 0, 999)"),
        Ok("2023-05-01T10:30Z".to_string())
    );
}

#[test]
fn milliseconds_are_cut_not_rounded() {
    assert_eq!(
        normalize_line("datetime.datetime(2023, 5, 1, 10, 30, 15, 1999)"),
        Ok("2023-05-01T10:30:15.001Z".to_string())
    );
    assert_eq!(
        normalize_line("datetime.datetime(2023, 5, 1, 10, 30, 0, 999999)"),
        Ok("2023-05-01T10:30:00.999Z".to_string())
    );
}

#[test]
fn utc_marker_without_seconds() {
    assert_eq!(
        normalize_line("datetime.datetime(2023, 5, 1, 10, 30, tzinfo=datetime.timezone.utc)"),
        Ok("2023-05-01T10:30Z".to_string())
    );
    assert_eq!(
        normalize_line("datetime.datetime(2023, 5, 1, 10, 30, 7, tzinfo=datetime.timezone.utc)"),
        Ok("2023-05-01T10:30:07Z".to_string())
    );
}

#[test]
fn fields_are_not_range_checked() {
    assert_eq!(
        normalize_line("datetime.datetime(2023, 13, 45, 99, 61)"),
        Ok("2023-13-45T99:61Z".to_string())
    );
    assert_eq!(
        normalize_line("datetime.datetime(5, 123, 1, 0, 0, 100)"),
        Ok("0005-123-01T00:00:100Z".to_string())
    );
    assert_eq!(
        normalize_line("datetime.datetime(12345, 1, 1, 0, 0)"),
        Ok("12345-01-01T00:00Z".to_string())
    );
}

#[test]
fn spacing_inside_the_literal() {
    assert_eq!(
        normalize_line("datetime.datetime(2023,5,1,10,30)"),
        Ok("2023-05-01T10:30Z".to_string())
    );
    assert_eq!(
        normalize_line("datetime.datetime(2023,   5,\t1, 10,  30,\t\t4)"),
        Ok("2023-05-01T10:30:04Z".to_string())
    );
}

#[test]
fn several_literals_in_one_line() {
    let line = "a=datetime.datetime(2023, 5, 1, 10, 30), b=datetime.datetime(2024, 12, 31, 23, 59, 59) end";
    assert_eq!(
        normalize_line(line),
        Ok("a=2023-05-01T10:30Z, b=2024-12-31T23:59:59Z end".to_string())
    );
    assert_eq!(
        normalize_line("datetime.datetime(1, 2, 3, 4, 5)datetime.datetime(6, 7, 8, 9, 10)"),
        Ok("0001-02-03T04:05Z0006-07-08T09:10Z".to_string())
    );
}

#[test]
fn lines_without_a_literal_are_kept() {
    for line in [
        "",
        "plain text",
        "datetime.datetime(2023, 5, 1, 10)",
        "datetime.datetime(2023, 5, 1, 10, 30",
        "datetime.datetime (2023, 5, 1, 10, 30)",
        "datetime_datetime(2023, 5, 1, 10, 30)",
        "datetime.datetime(2023, 5, 1, 10, 30, 1, 2, 3)",
        "datetime.datetime(2023, 5, 1, 10, -30)",
        "  grüße, 世界  ",
    ] {
        assert_eq!(normalize_line(line), Ok(line.to_string()), "{:?}", line);
    }
}

#[test]
fn text_around_a_literal_is_kept() {
    assert_eq!(
        normalize_line("größe → datetime.datetime(2023, 5, 1, 10, 30) ← 世界"),
        Ok("größe → 2023-05-01T10:30Z ← 世界".to_string())
    );
    assert_eq!(
        normalize_line("datetime.datetime(datetime.datetime(2023, 5, 1, 10, 30))"),
        Ok("datetime.datetime(2023-05-01T10:30Z)".to_string())
    );
}

#[test]
fn a_field_too_large_is_refused() {
    assert_eq!(
        normalize_line("datetime.datetime(4294967296, 5, 1, 10, 30)"),
        Err(RewriteError::InvalidNumber)
    );
    assert_eq!(
        normalize_line("datetime.datetime(2023, 5, 1, 10, 30, 15, 99999999999)"),
        Err(RewriteError::InvalidNumber)
    );
    assert_eq!(
        normalize_line("datetime.datetime(4294967295, 5, 1, 10, 30)"),
        Ok("4294967295-05-01T10:30Z".to_string())
    );
}

#[test]
fn a_later_bad_literal_refuses_the_line() {
    assert_eq!(
        normalize_line(
            "datetime.datetime(2023, 5, 1, 10, 30) datetime.datetime(2023, 5, 1, 10, 99999999999)"
        ),
        Err(RewriteError::InvalidNumber)
    );
}

#[test]
fn digits_of_other_scripts_are_refused() {
    assert_eq!(
        normalize_line("datetime.datetime(٢٠٢٣, 5, 1, 10, 30)"),
        Err(RewriteError::InvalidNumber)
    );
}

#[test]
fn shapes() {
    assert_eq!(stamp([2023, 5, 1, 10, 30, 0, 0]).shape(), Shape::Minutes);
    assert_eq!(stamp([2023, 5, 1, 10, 30, 0, 999]).shape(), Shape::Minutes);
    assert_eq!(stamp([2023, 5, 1, 10, 30, 1, 0]).shape(), Shape::Seconds);
    assert_eq!(stamp([2023, 5, 1, 10, 30, 1, 999]).shape(), Shape::Seconds);
    assert_eq!(stamp([2023, 5, 1, 10, 30, 0, 1000]).shape(), Shape::Milliseconds);
    assert_eq!(stamp([2023, 5, 1, 10, 30, 59, 1000]).shape(), Shape::Milliseconds);
}

#[test]
fn milliseconds_of_a_timestamp() {
    assert_eq!(stamp([0, 0, 0, 0, 0, 0, 0]).millisecond(), 0);
    assert_eq!(stamp([0, 0, 0, 0, 0, 0, 999]).millisecond(), 0);
    assert_eq!(stamp([0, 0, 0, 0, 0, 0, 1000]).millisecond(), 1);
    assert_eq!(stamp([0, 0, 0, 0, 0, 0, 500000]).millisecond(), 500);
    assert_eq!(stamp([0, 0, 0, 0, 0, 0, u32::MAX]).millisecond(), 4294967);
}

#[test]
fn rendering_each_shape() {
    assert_eq!(stamp([2023, 5, 1, 10, 30, 0, 0]).render(), "2023-05-01T10:30Z");
    assert_eq!(stamp([2023, 5, 1, 10, 30, 15, 0]).render(), "2023-05-01T10:30:15Z");
    assert_eq!(stamp([2023, 5, 1, 10, 30, 15, 500000]).render(), "2023-05-01T10:30:15.500Z");
    assert_eq!(stamp([2023, 5, 1, 10, 30, 0, 7000]).render(), "2023-05-01T10:30:00.007Z");
    assert_eq!(stamp([0, 0, 0, 0, 0, 0, 0]).render(), "0000-00-00T00:00Z");
    assert_eq!(
        stamp([u32::MAX, u32::MAX, u32::MAX, u32::MAX, u32::MAX, u32::MAX, u32::MAX]).render(),
        "4294967295-4294967295-4294967295T4294967295:4294967295:4294967295.4294967Z"
    );
}

#[test]
fn rendering_is_appended() {
    let mut out = String::from("at ");
    stamp([1999, 12, 31, 23, 59, 59, 0]).push_iso(&mut out);
    assert_eq!(out, "at 1999-12-31T23:59:59Z");
}

#[test]
fn spans_that_fit() {
    let line = "aé世b";
    assert_eq!(line.len(), 7);
    for (start, end, expected) in [
        (0, 0, true),
        (0, 1, true),
        (1, 3, true),
        (3, 6, true),
        (0, 7, true),
        (7, 7, true),
        (1, 2, false),
        (2, 3, false),
        (3, 4, false),
        (4, 6, false),
        (3, 2, false),
        (0, 8, false),
        (8, 8, false),
        (7, 6, false),
    ] {
        assert_eq!(fits(line, Span { start, end }), expected, "{}..{}", start, end);
        assert_eq!(slice(line, Span { start, end }).is_some(), expected, "{}..{}", start, end);
        assert_eq!(slice(line, Span { start, end }), line.get(start..end), "{}..{}", start, end);
    }
}

#[test]
fn cutting_a_line() {
    let line = "aé世b";
    assert_eq!(cut(line, Span { start: 1, end: 6 }), "é世");
    assert_eq!(cut(line, Span { start: 0, end: 0 }), "");
    assert_eq!(cut(line, Span { start: 0, end: 7 }), line);
    assert_eq!(rest_from(line, 3), "世b");
    assert_eq!(rest_from(line, 7), "");
    assert_eq!(rest_from(line, 0), line);
}

#[test]
fn rewriting_with_a_given_table() {
    let line = "é=(2023,5,1,10,30,7)!";
    let table = vec![vec![
        span(3, 21),
        span(4, 8),
        span(9, 10),
        span(11, 12),
        span(13, 15),
        span(16, 18),
        span(19, 20),
        None,
    ]];
    assert!(check_table(line, &table));
    assert_eq!(rewrite_line(line, &table), Ok("é=2023-05-01T10:30:07Z!".to_string()));
}

#[test]
fn rewriting_with_an_empty_table_keeps_the_line() {
    assert_eq!(rewrite_line("any 世界 line", &vec![]), Ok("any 世界 line".to_string()));
    assert_eq!(rewrite_line("", &vec![]), Ok(String::new()));
}

#[test]
fn a_missing_required_field_is_refused() {
    let line = "2023 5 1 10 30";
    let table = vec![vec![span(0, 14), span(0, 4), span(5, 6), span(7, 8), span(9, 11), None]];
    assert_eq!(rewrite_line(line, &table), Err(RewriteError::InvalidNumber));
    let short = vec![vec![span(0, 14), span(0, 4), span(5, 6), span(7, 8), span(9, 11)]];
    assert_eq!(rewrite_line(line, &short), Err(RewriteError::InvalidNumber));
    let full = vec![vec![span(0, 14), span(0, 4), span(5, 6), span(7, 8), span(9, 11), span(12, 14)]];
    assert_eq!(rewrite_line(line, &full), Ok("2023-05-01T10:30Z".to_string()));
}

#[test]
fn a_field_that_is_no_number_is_refused() {
    let line = "2023 5 1 10 3x";
    let table = vec![vec![span(0, 14), span(0, 4), span(5, 6), span(7, 8), span(9, 11), span(12, 14)]];
    assert_eq!(rewrite_line(line, &table), Err(RewriteError::InvalidNumber));
    let empty = vec![vec![span(0, 14), span(0, 4), span(5, 6), span(7, 8), span(9, 11), span(12, 12)]];
    assert_eq!(rewrite_line(line, &empty), Err(RewriteError::InvalidNumber));
}

#[test]
fn spans_that_do_not_fit_are_refused() {
    let line = "é 1 2 3 4 5";
    let good = vec![span(3, 12), span(3, 4), span(5, 6), span(7, 8), span(9, 10), span(11, 12)];
    assert_eq!(rewrite_line(line, &vec![good.clone()]), Ok("é 0001-02-03T04:05Z".to_string()));
    let mut outside = good.clone();
    outside[0] = span(3, 13);
    assert_eq!(rewrite_line(line, &vec![outside]), Err(RewriteError::InvalidSpan));
    let mut inside_char = good.clone();
    inside_char[0] = span(1, 12);
    assert_eq!(rewrite_line(line, &vec![inside_char]), Err(RewriteError::InvalidSpan));
    let mut backwards = good.clone();
    backwards[2] = span(6, 5);
    assert_eq!(rewrite_line(line, &vec![backwards]), Err(RewriteError::InvalidSpan));
    let mut headless = good.clone();
    headless[0] = None;
    assert_eq!(rewrite_line(line, &vec![headless]), Err(RewriteError::InvalidSpan));
    assert_eq!(rewrite_line(line, &vec![vec![]]), Err(RewriteError::InvalidSpan));
}

#[test]
fn literals_that_overlap_are_refused() {
    let line = "1 2 3 4 5 6";
    let one = vec![span(0, 9), span(0, 1), span(2, 3), span(4, 5), span(6, 7), span(8, 9)];
    let two = vec![span(8, 11), span(0, 1), span(2, 3), span(4, 5), span(6, 7), span(10, 11)];
    assert_eq!(rewrite_line(line, &vec![one.clone(), two.clone()]), Err(RewriteError::InvalidSpan));
    assert_eq!(rewrite_line(line, &vec![two.clone(), one.clone()]), Err(RewriteError::InvalidSpan));
    let next = vec![span(9, 11), span(0, 1), span(2, 3), span(4, 5), span(6, 7), span(10, 11)];
    assert_eq!(
        rewrite_line(line, &vec![one, next]),
        Ok("0001-02-03T04:05Z0001-02-03T04:06Z".to_string())
    );
}

#[test]
fn a_bad_span_counts_before_a_bad_number() {
    let line = "x 2 3 4 5 6";
    let number = vec![span(0, 9), span(0, 1), span(2, 3), span(4, 5), span(6, 7), span(8, 9)];
    let place = vec![span(9, 12), span(0, 1), span(2, 3), span(4, 5), span(6, 7), span(10, 11)];
    assert_eq!(rewrite_line(line, &vec![number.clone()]), Err(RewriteError::InvalidNumber));
    assert_eq!(rewrite_line(line, &vec![number, place]), Err(RewriteError::InvalidSpan));
}

#[test]
fn a_field_may_carry_a_plus_sign() {
    let line = "+2023 05 1 10 +3";
    let table = vec![vec![span(0, 16), span(0, 5), span(6, 8), span(9, 10), span(11, 13), span(14, 16)]];
    assert_eq!(rewrite_line(line, &table), Ok("2023-05-01T10:03Z".to_string()));
}

#[test]
fn checking_groups() {
    let line = "é12";
    assert!(check_groups(line, &vec![span(0, 4), None, span(2, 3)]));
    assert!(!check_groups(line, &vec![]));
    assert!(!check_groups(line, &vec![None, span(2, 3)]));
    assert!(!check_groups(line, &vec![span(0, 4), span(1, 3)]));
    assert!(!check_groups(line, &vec![span(0, 5)]));
}

#[test]
fn reading_fields() {
    let line = "é12 007";
    let groups = vec![span(0, 8), span(2, 4), None, span(5, 8), span(4, 5)];
    assert_eq!(read_field(line, &groups, 1, true), Some(12));
    assert_eq!(read_field(line, &groups, 2, true), None);
    assert_eq!(read_field(line, &groups, 2, false), Some(0));
    assert_eq!(read_field(line, &groups, 3, true), Some(7));
    assert_eq!(read_field(line, &groups, 4, false), None);
    assert_eq!(read_field(line, &groups, 5, false), Some(0));
    assert_eq!(read_field(line, &groups, 5, true), None);
    assert_eq!(read_field(line, &groups, 0, true), None);
}

#[test]
fn reading_a_timestamp() {
    let line = "1 2 3 4 5 6 7";
    let all = vec![
        span(0, 13),
        span(0, 1),
        span(2, 3),
        span(4, 5),
        span(6, 7),
        span(8, 9),
        span(10, 11),
        span(12, 13),
    ];
    assert_eq!(read_timestamp(line, &all), Some(stamp([1, 2, 3, 4, 5, 6, 7])));
    let mut without = all.clone();
    without[6] = None;
    without[7] = None;
    assert_eq!(read_timestamp(line, &without), Some(stamp([1, 2, 3, 4, 5, 0, 0])));
    let mut broken = all.clone();
    broken[3] = None;
    assert_eq!(read_timestamp(line, &broken), None);
}

#[test]
fn the_pattern_of_a_literal() {
    assert_eq!(
        TIMESTAMP_PATTERN,
        r"datetime\.datetime\((?<year>\d+),\s*(?<month>\d+),\s*(?<day>\d+),\s*(?<hour>\d+),\s*(?<minute>\d+)(?:,\s*(?<second>\d+))?(?:,\s*(?<microsecond>\d+))?(?:,\s*tzinfo=datetime\.timezone\.utc)?\)"
    );
}

#[test]
fn only_the_utc_marker_may_follow_the_numbers() {
    for line in [
        "datetime.datetime(2023, 5, 1, 10, 30, tzinfo=None)",
        "datetime.datetime(2023, 5, 1, 10, 30, tzinfo=datetime.timezone.UTC)",
        "datetime.datetime(2023, 5, 1, 10, 30, 15, 500000, 1)",
        "Datetime.Datetime(2023, 5, 1, 10, 30)",
        "datetimeXdatetime(2023, 5, 1, 10, 30)",
    ] {
        assert_eq!(normalize_line(line), Ok(line.to_string()), "{:?}", line);
    }
}

#[test]
fn a_literal_may_run_over_unusual_white_space() {
    assert_eq!(
        normalize_line("datetime.datetime(2023,\u{a0}5,\u{3000}1, 10, 30)"),
        Ok("2023-05-01T10:30Z".to_string())
    );
}
