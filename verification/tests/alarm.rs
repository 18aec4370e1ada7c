use vcal_parser::alarm::{alarm_field, parse_valarm, AlarmField};
use vcal_parser::error::ErrorKind;
use vcal_parser::model::VAlarm;

#[test]
fn test_parse_valarm() {
    let input = "BEGIN:VALARM\r\n\
TRIGGER:-P1D\r\n\
ACTION:DISPLAY\r\n\
DESCRIPTION:Reminder\r\n\
END:VALARM\r\n";

    let (_, alarm) = parse_valarm(input).unwrap();
    assert_eq!(alarm.trigger, Some("-P1D"));
    assert_eq!(alarm.action, Some("DISPLAY"));
    assert_eq!(alarm.description, Some("Reminder"));
}

#[test]
fn alarm_keeps_all_five_fields_and_drops_unknown_names() {
    let input = "BEGIN:VALARM\nTRIGGER:-PT5M\nX-WR-ALARMUID:7\nACTION:AUDIO\nREPEAT:2\n\
DURATION:PT1M\nDESCRIPTION:d\nUID:not-kept\nEND:VALARM\nnext";
    let (rest, alarm) = parse_valarm(input).unwrap();
    assert_eq!(rest, "next");
    assert_eq!(
        alarm,
        VAlarm {
            trigger: Some("-PT5M"),
            action: Some("AUDIO"),
            description: Some("d"),
            repeat: Some("2"),
            duration: Some("PT1M"),
        }
    );
}

#[test]
fn alarm_field_names_are_matched_exactly() {
    assert_eq!(alarm_field("TRIGGER"), Some(AlarmField::Trigger));
    assert_eq!(alarm_field("ACTION"), Some(AlarmField::Action));
    assert_eq!(alarm_field("DESCRIPTION"), Some(AlarmField::Description));
    assert_eq!(alarm_field("REPEAT"), Some(AlarmField::Repeat));
    assert_eq!(alarm_field("DURATION"), Some(AlarmField::Duration));
    assert_eq!(alarm_field("trigger"), None);
    assert_eq!(alarm_field("TRIGGERS"), None);
    assert_eq!(alarm_field("TRIGGE"), None);
    assert_eq!(alarm_field(""), None);
}

#[test]
fn alarm_later_value_replaces_earlier() {
    let (_, alarm) = parse_valarm("BEGIN:VALARM\nACTION:A\nACTION:B\nEND:VALARM\n").unwrap();
    assert_eq!(alarm.action, Some("B"));
}

#[test]
fn alarm_without_end_is_unterminated() {
    let input = "BEGIN:VALARM\nTRIGGER:-P1D\n";
    let err = parse_valarm(input).unwrap_err();
    assert_eq!(err.kind, ErrorKind::UnterminatedBlock);
    assert_eq!(err.rest, "");
    assert_eq!(err.offset(input), input.len());
}

#[test]
fn alarm_with_malformed_line_fails_there() {
    let input = "BEGIN:VALARM\nTRIGGER:-P1D\n???\nEND:VALARM\n";
    let err = parse_valarm(input).unwrap_err();
    assert_eq!(err.kind, ErrorKind::MalformedLine);
    assert_eq!(err.rest, "???\nEND:VALARM\n");
    assert_eq!(err.offset(input), 26);
}

#[test]
fn alarm_needs_its_begin_marker() {
    let err = parse_valarm("TRIGGER:-P1D\nEND:VALARM\n").unwrap_err();
    assert_eq!(err.kind, ErrorKind::ExpectedMarker);
    assert_eq!(err.rest, "TRIGGER:-P1D\nEND:VALARM\n");
}
