use vcal_parser::error::ErrorKind;
use vcal_parser::event::{event_field, EventField};
use vcal_parser::line::content_line;
use vcal_parser::{make_datetime, parse_vevent, DateTime};

#[test]
fn test_parse_vevent_simple() {
    let input = "BEGIN:VEVENT\r\n\
UID:test-uid-123\r\n\
SUMMARY:Test Event\r\n\
DTSTART:20251222T170000Z\r\n\
DTEND:20251222T180000Z\r\n\
END:VEVENT\r\n";

    let (_, event) = parse_vevent(input).unwrap();
    assert_eq!(event.uid, Some("test-uid-123"));
    assert_eq!(event.summary, Some("Test Event"));
    assert!(event.dtstart.is_some());
    assert_eq!(event.dtstart.as_ref().unwrap().value, "20251222T170000Z");
    assert!(event.dtstart.as_ref().unwrap().tzid.is_none());
}

#[test]
fn test_parse_vevent_with_alarm() {
    let input = "BEGIN:VEVENT\r\n\
UID:test-uid-456\r\n\
SUMMARY:Event with Alarm\r\n\
BEGIN:VALARM\r\n\
TRIGGER:-PT15M\r\n\
ACTION:DISPLAY\r\n\
END:VALARM\r\n\
END:VEVENT\r\n";

    let (_, event) = parse_vevent(input).unwrap();
    assert_eq!(event.uid, Some("test-uid-456"));
    assert_eq!(event.alarms.len(), 1);
    assert_eq!(event.alarms[0].trigger, Some("-PT15M"));
}

#[test]
fn test_parse_vevent_with_rrule() {
    let input = "BEGIN:VEVENT\r\n\
UID:recurring-event\r\n\
SUMMARY:Weekly Meeting\r\n\
RRULE:FREQ=WEEKLY;BYDAY=MO,WE,FR\r\n\
LOCATION:Conference Room A\r\n\
END:VEVENT\r\n";

    let (_, event) = parse_vevent(input).unwrap();
    assert_eq!(event.rrule, Some("FREQ=WEEKLY;BYDAY=MO,WE,FR"));
    assert_eq!(event.location, Some("Conference Room A"));
}

#[test]
fn datetime_with_timezone_parameter() {
    let input = "BEGIN:VEVENT\r\nDTSTART;TZID=Europe/Budapest:20251222T170000\r\nEND:VEVENT\r\n";
    let (_, event) = parse_vevent(input).unwrap();
    assert_eq!(
        event.dtstart,
        Some(DateTime { value: "20251222T170000", tzid: Some("Europe/Budapest") })
    );
    assert_eq!(event.dtend, None);
}

#[test]
fn datetime_takes_the_first_tzid_among_the_parameters() {
    let (_, prop) = content_line("DTEND;VALUE=DATE-TIME;TZID=A/B;TZID=C/D:20250101T000000").unwrap();
    let dt = make_datetime(&prop);
    assert_eq!(dt.value, "20250101T000000");
    assert_eq!(dt.tzid, Some("A/B"));
    assert_eq!(prop.param("VALUE"), Some("DATE-TIME"));
    assert_eq!(prop.param("tzid"), None);
}

#[test]
fn datetime_value_is_not_read_as_a_date() {
    let (_, event) = parse_vevent("BEGIN:VEVENT\nDTSTART:not a date at all\nEND:VEVENT\n").unwrap();
    assert_eq!(event.dtstart.unwrap().value, "not a date at all");
}

#[test]
fn event_with_one_alarm_sets_only_what_the_alarm_holds() {
    let input = "BEGIN:VEVENT\r\nBEGIN:VALARM\r\nTRIGGER:-P1D\r\nACTION:DISPLAY\r\nEND:VALARM\r\nEND:VEVENT\r\n";
    let (rest, event) = parse_vevent(input).unwrap();
    assert_eq!(rest, "");
    assert_eq!(event.alarms.len(), 1);
    let alarm = &event.alarms[0];
    assert_eq!(alarm.trigger, Some("-P1D"));
    assert_eq!(alarm.action, Some("DISPLAY"));
    assert_eq!(alarm.description, None);
    assert_eq!(alarm.repeat, None);
    assert_eq!(alarm.duration, None);
}

#[test]
fn event_keeps_every_known_property() {
    let input = "BEGIN:VEVENT\nUID:u\nSUMMARY:s\nDESCRIPTION:d\nLOCATION:l\nDTSTAMP:t\nSTATUS:st\n\
RRULE:r\nCATEGORIES:c\nORGANIZER:o\nURL:http://x/y\nPRIORITY:5\nSEQUENCE:2\nTRANSP:OPAQUE\n\
CREATED:cr\nLAST-MODIFIED:lm\nDTSTART:a\nDTEND:b\nEND:VEVENT\n";
    let (_, e) = parse_vevent(input).unwrap();
    assert_eq!(e.uid, Some("u"));
    assert_eq!(e.summary, Some("s"));
    assert_eq!(e.description, Some("d"));
    assert_eq!(e.location, Some("l"));
    assert_eq!(e.dtstamp, Some("t"));
    assert_eq!(e.status, Some("st"));
    assert_eq!(e.rrule, Some("r"));
    assert_eq!(e.categories, Some("c"));
    assert_eq!(e.organizer, Some("o"));
    assert_eq!(e.url, Some("http://x/y"));
    assert_eq!(e.priority, Some("5"));
    assert_eq!(e.sequence, Some("2"));
    assert_eq!(e.transp, Some("OPAQUE"));
    assert_eq!(e.created, Some("cr"));
    assert_eq!(e.last_modified, Some("lm"));
    assert_eq!(e.dtstart.unwrap().value, "a");
    assert_eq!(e.dtend.unwrap().value, "b");
    assert!(e.alarms.is_empty());
}

#[test]
fn event_field_names_are_matched_exactly() {
    assert_eq!(event_field("UID"), Some(EventField::Uid));
    assert_eq!(event_field("LAST-MODIFIED"), Some(EventField::LastModified));
    assert_eq!(event_field("DTSTART"), Some(EventField::Dtstart));
    assert_eq!(event_field("DTEND"), Some(EventField::Dtend));
    assert_eq!(event_field("Summary"), None);
    assert_eq!(event_field("X-UNKNOWN"), None);
    assert_eq!(event_field("TRIGGER"), None);
}

#[test]
fn event_ignores_unknown_properties() {
    let with = "BEGIN:VEVENT\nUID:1\nX-APPLE-TRAVEL:yes\nCLASS:PUBLIC\nSUMMARY:s\nEND:VEVENT\n";
    let without = "BEGIN:VEVENT\nUID:1\nSUMMARY:s\nEND:VEVENT\n";
    assert_eq!(parse_vevent(with).unwrap().1, parse_vevent(without).unwrap().1);
}

#[test]
fn event_alarms_come_in_the_order_of_the_text() {
    let input = "BEGIN:VEVENT\nBEGIN:VALARM\nTRIGGER:1\nEND:VALARM\nUID:x\nBEGIN:VALARM\nTRIGGER:2\n\
END:VALARM\nBEGIN:VALARM\nTRIGGER:3\nEND:VALARM\nEND:VEVENT\n";
    let (_, event) = parse_vevent(input).unwrap();
    let triggers: Vec<_> = event.alarms.iter().map(|a| a.trigger.unwrap()).collect();
    assert_eq!(triggers, vec!["1", "2", "3"]);
}

#[test]
fn event_without_end_is_unterminated() {
    let input = "BEGIN:VEVENT\nUID:1\n";
    let err = parse_vevent(input).unwrap_err();
    assert_eq!(err.kind, ErrorKind::UnterminatedBlock);
    assert_eq!(err.rest, "");
}

#[test]
fn event_with_malformed_line_fails_there() {
    let input = "BEGIN:VEVENT\nUID:1\n=bad\nEND:VEVENT\n";
    let err = parse_vevent(input).unwrap_err();
    assert_eq!(err.kind, ErrorKind::MalformedLine);
    assert_eq!(err.rest, "=bad\nEND:VEVENT\n");
}

#[test]
fn event_reads_the_lines_of_a_failed_alarm_as_its_own() {
    let input = "BEGIN:VEVENT\nUID:1\nBEGIN:VALARM\nDESCRIPTION:from the alarm\nEND:VEVENT\n";
    let (rest, event) = parse_vevent(input).unwrap();
    assert_eq!(rest, "");
    assert!(event.alarms.is_empty());
    assert_eq!(event.description, Some("from the alarm"));
}
