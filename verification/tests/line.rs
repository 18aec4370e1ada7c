use vcal_parser::error::ErrorKind;
use vcal_parser::line::{begin_component, content_line, end_component};

#[test]
fn test_content_line_simple() {
    let input = "VERSION:2.0\r\n";
    let (_, prop) = content_line(input).unwrap();
    assert_eq!(prop.name, "VERSION");
    assert_eq!(prop.value, "2.0");
    assert!(prop.params.is_empty());
}

#[test]
fn test_content_line_with_params() {
    let input = "DTSTART;TZID=Europe/Budapest:20251222T170000\r\n";
    let (_, prop) = content_line(input).unwrap();
    assert_eq!(prop.name, "DTSTART");
    assert_eq!(prop.value, "20251222T170000");
    assert_eq!(prop.params, vec![("TZID", "Europe/Budapest")]);
}

#[test]
fn test_content_line_multiple_params() {
    let input = "DTSTART;TZID=Europe/Budapest;VALUE=DATE-TIME:20251222T170000\r\n";
    let (_, prop) = content_line(input).unwrap();
    assert_eq!(prop.name, "DTSTART");
    assert_eq!(prop.value, "20251222T170000");
    assert_eq!(
        prop.params,
        vec![("TZID", "Europe/Budapest"), ("VALUE", "DATE-TIME")]
    );
}

#[test]
fn content_line_leaves_the_next_line() {
    let (rest, prop) = content_line("UID:e1\nSUMMARY:Test\n").unwrap();
    assert_eq!(prop.name, "UID");
    assert_eq!(prop.value, "e1");
    assert_eq!(rest, "SUMMARY:Test\n");
}

#[test]
fn content_line_at_end_of_input_needs_no_line_break() {
    let (rest, prop) = content_line("SUMMARY:last").unwrap();
    assert_eq!(prop.value, "last");
    assert_eq!(rest, "");
}

#[test]
fn content_line_value_may_be_empty_and_hold_separators() {
    let (_, prop) = content_line("X-EMPTY:\r\n").unwrap();
    assert_eq!(prop.value, "");
    let (_, prop) = content_line("RRULE:FREQ=WEEKLY;BYDAY=MO,WE,FR\r\n").unwrap();
    assert_eq!(prop.value, "FREQ=WEEKLY;BYDAY=MO,WE,FR");
    assert!(prop.params.is_empty());
}

#[test]
fn content_line_name_takes_unicode_alphanumerics() {
    let (_, prop) = content_line("Fürdő-2:x\n").unwrap();
    assert_eq!(prop.name, "Fürdő-2");
    assert_eq!(prop.value, "x");
}

#[test]
fn content_line_without_name_fails_at_its_head() {
    let err = content_line(":value\n").unwrap_err();
    assert_eq!(err.kind, ErrorKind::MalformedLine);
    assert_eq!(err.rest, ":value\n");
    assert_eq!(err.offset(":value\n"), 0);
}

#[test]
fn content_line_without_separator_fails_behind_the_name() {
    let input = "SUMMARY no colon\n";
    let err = content_line(input).unwrap_err();
    assert_eq!(err.kind, ErrorKind::MalformedLine);
    assert_eq!(err.rest, " no colon\n");
    assert_eq!(err.offset(input), 7);
}

#[test]
fn content_line_with_broken_parameter_fails_at_the_semicolon() {
    let input = "DTSTART;TZID=:20251222T170000\n";
    let err = content_line(input).unwrap_err();
    assert_eq!(err.kind, ErrorKind::MalformedLine);
    assert_eq!(err.rest, ";TZID=:20251222T170000\n");
    let input = "DTSTART;TZID=a;=b:1\n";
    let err = content_line(input).unwrap_err();
    assert_eq!(err.rest, ";=b:1\n");
}

#[test]
fn content_line_with_lone_carriage_return_fails_at_the_value() {
    let input = "SUMMARY:one\rtwo\n";
    let err = content_line(input).unwrap_err();
    assert_eq!(err.kind, ErrorKind::MalformedLine);
    assert_eq!(err.rest, "one\rtwo\n");
}

#[test]
fn offset_counts_bytes_not_characters() {
    let input = "Fürdő\n";
    let err = content_line(input).unwrap_err();
    assert_eq!(err.rest, "\n");
    assert_eq!(err.offset(input), 7);
    assert_eq!(err.offset(""), 0);
}

#[test]
fn markers_match_only_the_name_asked_for() {
    assert_eq!(begin_component("BEGIN:VEVENT\r\nUID:1\r\n", "VEVENT"), Ok("UID:1\r\n"));
    assert_eq!(end_component("END:VEVENT\nrest", "VEVENT"), Ok("rest"));
    assert_eq!(end_component("END:VEVENT", "VEVENT"), Ok(""));
    let err = begin_component("BEGIN:VTODO\n", "VEVENT").unwrap_err();
    assert_eq!(err.kind, ErrorKind::ExpectedMarker);
    assert_eq!(err.rest, "VTODO\n");
    let err = begin_component("END:VEVENT\n", "VEVENT").unwrap_err();
    assert_eq!(err.kind, ErrorKind::ExpectedMarker);
    assert_eq!(err.rest, "END:VEVENT\n");
    let err = end_component("END:VEVEN", "VEVENT").unwrap_err();
    assert_eq!(err.rest, "VEVEN");
}
