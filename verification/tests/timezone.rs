use vcal_parser::error::ErrorKind;
use vcal_parser::parse_vtimezone;

#[test]
fn test_parse_vtimezone() {
    let input = "BEGIN:VTIMEZONE\r\n\
TZID:Europe/Budapest\r\n\
BEGIN:STANDARD\r\n\
TZNAME:CET\r\n\
TZOFFSETFROM:+0200\r\n\
TZOFFSETTO:+0100\r\n\
END:STANDARD\r\n\
END:VTIMEZONE\r\n";

    let (_, tz) = parse_vtimezone(input).unwrap();
    assert_eq!(tz.tzid, Some("Europe/Budapest"));
}

#[test]
fn timezone_takes_tzid_at_depth_one_only() {
    let input = "BEGIN:VTIMEZONE\nBEGIN:STANDARD\nTZID:Inner/Zone\nTZNAME:CET\nEND:STANDARD\n\
END:VTIMEZONE\nafter";
    let (rest, tz) = parse_vtimezone(input).unwrap();
    assert_eq!(tz.tzid, None);
    assert_eq!(rest, "after");
}

#[test]
fn timezone_with_standard_and_daylight_keeps_only_the_outer_tzid() {
    let input = "BEGIN:VTIMEZONE\r\nTZID:Europe/Budapest\r\nBEGIN:STANDARD\r\nTZNAME:CET\r\n\
TZOFFSETFROM:+0200\r\nTZOFFSETTO:+0100\r\nEND:STANDARD\r\nBEGIN:DAYLIGHT\r\nTZNAME:CEST\r\n\
TZOFFSETFROM:+0100\r\nTZOFFSETTO:+0200\r\nEND:DAYLIGHT\r\nEND:VTIMEZONE\r\n";
    let (rest, tz) = parse_vtimezone(input).unwrap();
    assert_eq!(rest, "");
    assert_eq!(tz.tzid, Some("Europe/Budapest"));
}

#[test]
fn timezone_takes_tzid_again_once_back_at_depth_one() {
    let input = "BEGIN:VTIMEZONE\nTZID:First\nBEGIN:STANDARD\nTZID:Inner\nEND:STANDARD\nTZID:Last\n\
END:VTIMEZONE\n";
    let (_, tz) = parse_vtimezone(input).unwrap();
    assert_eq!(tz.tzid, Some("Last"));
}

#[test]
fn timezone_below_depth_one_takes_no_tzid() {
    let input = "BEGIN:VTIMEZONE\nEND:STANDARD\nTZID:Zero\nEND:VTIMEZONE\n";
    let (_, tz) = parse_vtimezone(input).unwrap();
    assert_eq!(tz.tzid, None);
}

#[test]
fn timezone_ends_at_its_marker_at_any_depth() {
    let input = "BEGIN:VTIMEZONE\nTZID:Z\nBEGIN:STANDARD\nEND:VTIMEZONE\nrest";
    let (rest, tz) = parse_vtimezone(input).unwrap();
    assert_eq!(tz.tzid, Some("Z"));
    assert_eq!(rest, "rest");
}

#[test]
fn timezone_lines_inside_nested_blocks_must_still_be_content_lines() {
    let input = "BEGIN:VTIMEZONE\nBEGIN:STANDARD\nno separator\nEND:STANDARD\nEND:VTIMEZONE\n";
    let err = parse_vtimezone(input).unwrap_err();
    assert_eq!(err.kind, ErrorKind::MalformedLine);
    assert_eq!(err.rest, " separator\nEND:STANDARD\nEND:VTIMEZONE\n");
}

#[test]
fn timezone_marker_line_with_lone_carriage_return_fails_at_its_head() {
    let input = "BEGIN:VTIMEZONE\nBEGIN:STANDARD\rX\nEND:VTIMEZONE\n";
    let err = parse_vtimezone(input).unwrap_err();
    assert_eq!(err.kind, ErrorKind::MalformedLine);
    assert_eq!(err.rest, "BEGIN:STANDARD\rX\nEND:VTIMEZONE\n");
}

#[test]
fn timezone_without_end_is_unterminated() {
    let input = "BEGIN:VTIMEZONE\nTZID:Z\nBEGIN:STANDARD\nEND:STANDARD\n";
    let err = parse_vtimezone(input).unwrap_err();
    assert_eq!(err.kind, ErrorKind::UnterminatedBlock);
    assert_eq!(err.rest, "");
    assert_eq!(err.offset(input), input.len());
}
