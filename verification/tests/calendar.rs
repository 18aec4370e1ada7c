use vcal_parser::calendar::{calendar_field, CalendarField};
use vcal_parser::error::ErrorKind;
use vcal_parser::{parse_vcalendar, unfold_lines};

#[test]
fn test_parse_vcalendar_full() {
    let vcal = "BEGIN:VCALENDAR\r\n\
VERSION:2.0\r\n\
PRODID:DAVx5/4.5.7.1-ose ical4j/3.2.19\r\n\
BEGIN:VEVENT\r\n\
DTSTAMP:20251221T081106Z\r\n\
UID:481b79c2-cc82-47bd-bf60-6082bab80e99\r\n\
SUMMARY:Fürdő\r\n\
DTSTART;TZID=Europe/Budapest:20251222T170000\r\n\
DTEND;TZID=Europe/Budapest:20251222T230000\r\n\
STATUS:CONFIRMED\r\n\
BEGIN:VALARM\r\n\
TRIGGER:-P1D\r\n\
ACTION:DISPLAY\r\n\
DESCRIPTION:Fürdő\r\n\
END:VALARM\r\n\
END:VEVENT\r\n\
BEGIN:VTIMEZONE\r\n\
TZID:Europe/Budapest\r\n\
BEGIN:STANDARD\r\n\
TZNAME:CET\r\n\
TZOFFSETFROM:+0200\r\n\
TZOFFSETTO:+0100\r\n\
DTSTART:19961027T030000\r\n\
RRULE:FREQ=YEARLY;BYMONTH=10;BYDAY=-1SU\r\n\
END:STANDARD\r\n\
BEGIN:DAYLIGHT\r\n\
TZNAME:CEST\r\n\
TZOFFSETFROM:+0100\r\n\
TZOFFSETTO:+0200\r\n\
DTSTART:19840325T020000\r\n\
RRULE:FREQ=YEARLY;BYMONTH=3;BYDAY=-1SU\r\n\
END:DAYLIGHT\r\n\
END:VTIMEZONE\r\n\
END:VCALENDAR\r\n";

    let (remaining, cal) = parse_vcalendar(vcal).unwrap();

    assert!(remaining.is_empty());
    assert_eq!(cal.version, Some("2.0"));
    assert_eq!(cal.prodid, Some("DAVx5/4.5.7.1-ose ical4j/3.2.19"));
    assert_eq!(cal.events.len(), 1);
    assert_eq!(cal.timezones.len(), 1);

    let event = &cal.events[0];
    assert_eq!(event.summary, Some("Fürdő"));
    assert_eq!(event.uid, Some("481b79c2-cc82-47bd-bf60-6082bab80e99"));
    assert_eq!(event.status, Some("CONFIRMED"));
    assert_eq!(
        event.dtstart.as_ref().unwrap().tzid,
        Some("Europe/Budapest")
    );
    assert_eq!(event.dtstart.as_ref().unwrap().value, "20251222T170000");
    assert_eq!(event.alarms.len(), 1);
    assert_eq!(event.alarms[0].trigger, Some("-P1D"));
    assert_eq!(event.alarms[0].action, Some("DISPLAY"));

    let tz = &cal.timezones[0];
    assert_eq!(tz.tzid, Some("Europe/Budapest"));
}

#[test]
fn test_parse_vcalendar_with_lf_line_endings() {
    let vcal = "BEGIN:VCALENDAR\n\
VERSION:2.0\n\
BEGIN:VEVENT\n\
UID:test-lf\n\
SUMMARY:LF Test\n\
END:VEVENT\n\
END:VCALENDAR\n";

    let (_, cal) = parse_vcalendar(vcal).unwrap();
    assert_eq!(cal.version, Some("2.0"));
    assert_eq!(cal.events.len(), 1);
    assert_eq!(cal.events[0].uid, Some("test-lf"));
}

#[test]
fn test_parse_with_unfolding() {
    let folded = "BEGIN:VCALENDAR\r\n\
VERSION:2.0\r\n\
BEGIN:VEVENT\r\n\
UID:folded-test\r\n\
DESCRIPTION:This is a very long description that has been\r\n  folded across multiple lines for readability.\r\n\
END:VEVENT\r\n\
END:VCALENDAR\r\n";

    let unfolded = unfold_lines(folded);
    let (_, cal) = parse_vcalendar(&unfolded).unwrap();

    assert_eq!(cal.events.len(), 1);
    assert_eq!(
        cal.events[0].description,
        Some(
            "This is a very long description that has been folded across multiple lines for readability."
        )
    );
}

#[test]
fn test_original_sample() {
    let vcal = r#"BEGIN:VCALENDAR
VERSION:2.0
PRODID:DAVx5/4.5.7.1-ose ical4j/3.2.19
BEGIN:VEVENT
DTSTAMP:20251221T081106Z
UID:481b79c2-cc82-47bd-bf60-6082bab80e99
SUMMARY:Fürdő
DTSTART;TZID=Europe/Budapest:20251222T170000
DTEND;TZID=Europe/Budapest:20251222T230000
STATUS:CONFIRMED
BEGIN:VALARM
TRIGGER:-P1D
ACTION:DISPLAY
DESCRIPTION:Fürdő
END:VALARM
END:VEVENT
BEGIN:VTIMEZONE
TZID:Europe/Budapest
BEGIN:STANDARD
TZNAME:CET
TZOFFSETFROM:+0200
TZOFFSETTO:+0100
DTSTART:19961027T030000
RRULE:FREQ=YEARLY;BYMONTH=10;BYDAY=-1SU
END:STANDARD
BEGIN:DAYLIGHT
TZNAME:CEST
TZOFFSETFROM:+0100
TZOFFSETTO:+0200
DTSTART:19840325T020000
RRULE:FREQ=YEARLY;BYMONTH=3;BYDAY=-1SU
END:DAYLIGHT
END:VTIMEZONE
END:VCALENDAR
"#;
    let (_, cal) = parse_vcalendar(vcal).unwrap();

    assert_eq!(cal.version, Some("2.0"));
    assert_eq!(cal.events.len(), 1);
    assert_eq!(cal.timezones.len(), 1);
    assert_eq!(cal.events[0].summary, Some("Fürdő"));
    assert_eq!(cal.events[0].alarms.len(), 1);
}

#[test]
fn test_multiple_events() {
    let vcal = "BEGIN:VCALENDAR\r\n\
VERSION:2.0\r\n\
BEGIN:VEVENT\r\n\
UID:event-1\r\n\
SUMMARY:First Event\r\n\
END:VEVENT\r\n\
BEGIN:VEVENT\r\n\
UID:event-2\r\n\
SUMMARY:Second Event\r\n\
LOCATION:Room 101\r\n\
END:VEVENT\r\n\
BEGIN:VEVENT\r\n\
UID:event-3\r\n\
SUMMARY:Third Event\r\n\
PRIORITY:1\r\n\
END:VEVENT\r\n\
END:VCALENDAR\r\n";

    let (_, cal) = parse_vcalendar(vcal).unwrap();

    assert_eq!(cal.events.len(), 3);
    assert_eq!(cal.events[0].uid, Some("event-1"));
    assert_eq!(cal.events[1].uid, Some("event-2"));
    assert_eq!(cal.events[1].location, Some("Room 101"));
    assert_eq!(cal.events[2].uid, Some("event-3"));
    assert_eq!(cal.events[2].priority, Some("1"));
}

#[test]
fn calendar_with_one_event() {
    let input = "BEGIN:VCALENDAR\r\nVERSION:2.0\r\nBEGIN:VEVENT\r\nUID:e1\r\nSUMMARY:Test\r\nEND:VEVENT\r\nEND:VCALENDAR\r\n";
    let (rest, cal) = parse_vcalendar(input).unwrap();
    assert_eq!(rest, "");
    assert_eq!(cal.version, Some("2.0"));
    assert_eq!(cal.prodid, None);
    assert_eq!(cal.events.len(), 1);
    assert_eq!(cal.events[0].uid, Some("e1"));
    assert_eq!(cal.events[0].summary, Some("Test"));
    assert!(cal.timezones.is_empty());
}

#[test]
fn calendar_field_names_are_matched_exactly() {
    assert_eq!(calendar_field("VERSION"), Some(CalendarField::Version));
    assert_eq!(calendar_field("PRODID"), Some(CalendarField::Prodid));
    assert_eq!(calendar_field("version"), None);
    assert_eq!(calendar_field("CALSCALE"), None);
}

#[test]
fn calendar_ignores_unknown_properties() {
    let with = "BEGIN:VCALENDAR\nVERSION:2.0\nCALSCALE:GREGORIAN\nX-WR-CALNAME:Home\nEND:VCALENDAR\n";
    let without = "BEGIN:VCALENDAR\nVERSION:2.0\nEND:VCALENDAR\n";
    assert_eq!(parse_vcalendar(with).unwrap().1, parse_vcalendar(without).unwrap().1);
}

#[test]
fn calendar_keeps_events_and_timezones_in_the_order_of_the_text() {
    let input = "BEGIN:VCALENDAR\nBEGIN:VTIMEZONE\nTZID:A\nEND:VTIMEZONE\nBEGIN:VEVENT\nUID:1\n\
END:VEVENT\nBEGIN:VTIMEZONE\nTZID:B\nEND:VTIMEZONE\nBEGIN:VEVENT\nUID:2\nEND:VEVENT\n\
END:VCALENDAR\n";
    let (_, cal) = parse_vcalendar(input).unwrap();
    let uids: Vec<_> = cal.events.iter().map(|e| e.uid.unwrap()).collect();
    let tzids: Vec<_> = cal.timezones.iter().map(|t| t.tzid.unwrap()).collect();
    assert_eq!(uids, vec!["1", "2"]);
    assert_eq!(tzids, vec!["A", "B"]);
}

#[test]
fn calendar_leaves_what_follows_its_end() {
    let (rest, _) = parse_vcalendar("BEGIN:VCALENDAR\nEND:VCALENDAR\nBEGIN:VCALENDAR\n").unwrap();
    assert_eq!(rest, "BEGIN:VCALENDAR\n");
}

#[test]
fn calendar_needs_its_begin_marker() {
    let input = "VERSION:2.0\nEND:VCALENDAR\n";
    let err = parse_vcalendar(input).unwrap_err();
    assert_eq!(err.kind, ErrorKind::ExpectedMarker);
    assert_eq!(err.rest, input);
    let err = parse_vcalendar("BEGIN:VEVENT\n").unwrap_err();
    assert_eq!(err.kind, ErrorKind::ExpectedMarker);
    assert_eq!(err.rest, "VEVENT\n");
    assert_eq!(err.offset("BEGIN:VEVENT\n"), 6);
}

#[test]
fn calendar_without_end_is_unterminated() {
    let input = "BEGIN:VCALENDAR\nVERSION:2.0\nBEGIN:VEVENT\nUID:1\nEND:VEVENT\n";
    let err = parse_vcalendar(input).unwrap_err();
    assert_eq!(err.kind, ErrorKind::UnterminatedBlock);
    assert_eq!(err.rest, "");
    assert_eq!(err.offset(input), input.len());
    let err = parse_vcalendar("").unwrap_err();
    assert_eq!(err.kind, ErrorKind::ExpectedMarker);
}

#[test]
fn calendar_with_malformed_line_fails_there() {
    let input = "BEGIN:VCALENDAR\nVERSION:2.0\nBEGIN:VEVENT\nUID:1\n!!\nEND:VEVENT\nEND:VCALENDAR\n";
    let err = parse_vcalendar(input).unwrap_err();
    assert_eq!(err.kind, ErrorKind::MalformedLine);
    assert_eq!(err.rest, "!!\nEND:VEVENT\nEND:VCALENDAR\n");
}

#[test]
fn calendar_reads_the_lines_of_a_failed_event_as_its_own() {
    let input = "BEGIN:VCALENDAR\nBEGIN:VEVENT\nVERSION:9\nEND:VCALENDAR\n";
    let (rest, cal) = parse_vcalendar(input).unwrap();
    assert_eq!(rest, "");
    assert!(cal.events.is_empty());
    assert_eq!(cal.version, Some("9"));
}

#[test]
fn folded_and_unfolded_documents_parse_alike() {
    let plain = "BEGIN:VCALENDAR\r\nVERSION:2.0\r\nBEGIN:VEVENT\r\nSUMMARY:Weekly meeting\r\nEND:VEVENT\r\nEND:VCALENDAR\r\n";
    let folded = "BEGIN:VCALENDAR\r\nVERS\r\n ION:2.0\r\nBEGIN:VEV\n\tENT\r\nSUMMARY:Weekly\r\n  meeting\r\nEND:VEVENT\r\nEND:VCALENDAR\r\n";
    let unfolded = unfold_lines(folded);
    assert_eq!(unfolded, plain);
    assert_eq!(parse_vcalendar(&unfolded).unwrap().1, parse_vcalendar(plain).unwrap().1);
}

#[test]
fn unknown_line_can_be_taken_out_at_any_depth() {
    let lines = [
        "BEGIN:VCALENDAR\r\n",
        "VERSION:2.0\r\n",
        "BEGIN:VEVENT\r\n",
        "UID:1\r\n",
        "BEGIN:VALARM\r\n",
        "TRIGGER:-P1D\r\n",
        "END:VALARM\r\n",
        "END:VEVENT\r\n",
        "BEGIN:VTIMEZONE\r\n",
        "TZID:Europe/Budapest\r\n",
        "BEGIN:STANDARD\r\n",
        "TZNAME:CET\r\n",
        "END:STANDARD\r\n",
        "END:VTIMEZONE\r\n",
        "END:VCALENDAR\r\n",
    ];
    let plain = lines.concat();
    let expected = parse_vcalendar(&plain).unwrap().1;
    for at in 1..lines.len() {
        let with = format!("{}X-UNKNOWN;A=b:some value\r\n{}", lines[..at].concat(), lines[at..].concat());
        let (rest, calendar) = parse_vcalendar(&with).unwrap();
        assert_eq!(rest, "");
        assert_eq!(calendar, expected, "line put in at {}", at);
    }
}

#[test]
fn unknown_line_does_not_change_how_a_document_fails() {
    let before = "BEGIN:VCALENDAR\nBEGIN:VEVENT\nUID:1\n";
    let behind = "SUMMARY no separator\nEND:VEVENT\nEND:VCALENDAR\n";
    let without = format!("{}{}", before, behind);
    let with = format!("{}X-UNKNOWN:1\n{}", before, behind);
    let e1 = parse_vcalendar(&without).unwrap_err();
    let e2 = parse_vcalendar(&with).unwrap_err();
    assert_eq!(e1.kind, ErrorKind::MalformedLine);
    assert_eq!(e1.kind, e2.kind);
    assert_eq!(e1.rest, e2.rest);
    assert_eq!(e2.offset(&with), e1.offset(&without) + "X-UNKNOWN:1\n".len());
}
