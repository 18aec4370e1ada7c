//! What holds of the parsers on every text: folding, order, unknown
//! properties, timezone depth and block ends.

use vstd::prelude::*;
use vstd::string::*;
use crate::alarm::{
    alarm_with, lemma_alarm_consumes, spec_alarm, spec_alarm_body, spec_alarm_field,
};
use crate::calendar::{
    calendar_with, calendar_with_event, calendar_with_timezone, spec_calendar,
    spec_calendar_body, spec_calendar_field,
};
use crate::error::ErrorModel;
use crate::event::{
    event_with, event_with_alarm, lemma_event_consumes, spec_event, spec_event_body,
    spec_event_field,
};
use crate::line::{
    lemma_content_line_consumes, lemma_marker_consumes, spec_begin, spec_content_line, spec_end,
    spec_line_text, starts_with, PropertyModel,
};
use crate::model::{AlarmModel, CalendarModel, EventModel, TimezoneModel};
use crate::text::is_suffix_of;
use crate::timezone::{
    lemma_marker_line_consumes, lemma_timezone_consumes, spec_timezone, spec_timezone_body,
    timezone_with,
};
use crate::unfold::{
    ends_with_char, fold_all, folds_fit, has_no_fold, is_fold, lemma_unfold_inverts_fold,
    lemma_unfold_takes_folds_out, lemma_unfold_without_folds, unfold,
};

verus! {

/// A document that was folded once parses, after unfolding, as the document
/// did before it was folded.
pub proof fn lemma_folded_document_parses_alike(a: Seq<char>, f: Seq<char>, b: Seq<char>)
    requires
        is_fold(f),
        has_no_fold(a + b),
        f[0] == '\n' ==> !ends_with_char(a, '\r'),
    ensures
        spec_calendar(unfold(a + f + b)) == spec_calendar(a + b),
{
    lemma_unfold_inverts_fold(a, f, b);
}

/// A document that was folded at any number of places parses, after
/// unfolding, as the document did before it was folded.
pub proof fn lemma_folded_document_parses_as_before(s: Seq<char>, cuts: Seq<(int, Seq<char>)>)
    requires
        has_no_fold(s),
        folds_fit(s, cuts),
    ensures
        unfold(fold_all(s, cuts)) == s,
        spec_calendar(unfold(fold_all(s, cuts))) == spec_calendar(s),
{
    lemma_unfold_takes_folds_out(s, cuts);
    lemma_unfold_without_folds(s);
}

/// The alarms of an event stand in the order of the text: those gathered
/// before `s` stay in front, and an alarm at the head of `s` comes right
/// behind them.
pub proof fn lemma_event_keeps_order(s: Seq<char>, acc: EventModel)
    ensures
        spec_event_body(s, acc) matches Ok((event, _)) ==> {
            &&& acc.alarms.is_prefix_of(event.alarms)
            &&& spec_alarm(s) matches Ok((alarm, _)) ==> acc.alarms.len() < event.alarms.len()
                && event.alarms[acc.alarms.len() as int] == alarm
        },
    decreases s.len(),
{
    lemma_alarm_consumes(s);
    lemma_content_line_consumes(s);
    if let Ok((alarm, rest)) = spec_alarm(s) {
        let next = event_with_alarm(acc, alarm);
        lemma_event_keeps_order(rest, next);
        if let Ok((event, _)) = spec_event_body(rest, next) {
            assert(next.alarms[acc.alarms.len() as int] == alarm);
            assert(acc.alarms =~= next.alarms.take(acc.alarms.len() as int));
        }
    } else if spec_end(s, "VEVENT"@) is Err && s.len() > 0 {
        if let Ok((p, rest)) = spec_content_line(s) {
            lemma_event_with_keeps_alarms(acc, p);
            lemma_event_keeps_order(rest, event_with(acc, p));
        }
    }
}

/// A property leaves the alarms of an event as they are.
proof fn lemma_event_with_keeps_alarms(e: EventModel, p: PropertyModel)
    ensures
        event_with(e, p).alarms == e.alarms,
{
}

/// The events and timezones of a calendar stand in the order of the text:
/// those gathered before `s` stay in front, and an event or timezone at the
/// head of `s` comes right behind them.
pub proof fn lemma_calendar_keeps_order(s: Seq<char>, acc: CalendarModel)
    ensures
        spec_calendar_body(s, acc) matches Ok((calendar, _)) ==> {
            &&& acc.events.is_prefix_of(calendar.events)
            &&& acc.timezones.is_prefix_of(calendar.timezones)
            &&& spec_event(s) matches Ok((event, _)) ==> acc.events.len() < calendar.events.len()
                && calendar.events[acc.events.len() as int] == event
            &&& spec_event(s) is Err ==> (spec_timezone(s) matches Ok((tz, _))
                ==> acc.timezones.len() < calendar.timezones.len()
                && calendar.timezones[acc.timezones.len() as int] == tz)
        },
    decreases s.len(),
{
    lemma_event_consumes(s);
    lemma_timezone_consumes(s);
    lemma_content_line_consumes(s);
    if let Ok((event, rest)) = spec_event(s) {
        let next = calendar_with_event(acc, event);
        lemma_calendar_keeps_order(rest, next);
        if spec_calendar_body(rest, next) is Ok {
            assert(next.events[acc.events.len() as int] == event);
            assert(acc.events =~= next.events.take(acc.events.len() as int));
        }
    } else if let Ok((tz, rest)) = spec_timezone(s) {
        let next = calendar_with_timezone(acc, tz);
        lemma_calendar_keeps_order(rest, next);
        if spec_calendar_body(rest, next) is Ok {
            assert(next.timezones[acc.timezones.len() as int] == tz);
            assert(acc.timezones =~= next.timezones.take(acc.timezones.len() as int));
        }
    } else if spec_end(s, "VCALENDAR"@) is Err && s.len() > 0 {
        if let Ok((p, rest)) = spec_content_line(s) {
            let next = calendar_with(acc, p);
            assert(next.events == acc.events && next.timezones == acc.timezones);
            lemma_calendar_keeps_order(rest, next);
        }
    }
}

/// An alarm ignores a property that it does not keep: where a content line
/// with such a name stands at the head of what is left of the block, the
/// block parses as it does without that line.
pub proof fn lemma_alarm_ignores_unknown(s: Seq<char>, acc: AlarmModel)
    requires
        spec_end(s, "VALARM"@) is Err,
        spec_content_line(s) matches Ok((p, _)) && spec_alarm_field(p.name) is None,
    ensures
        spec_content_line(s) matches Ok((_, rest)) && spec_alarm_body(s, acc) == spec_alarm_body(
            rest,
            acc,
        ),
{
    lemma_content_line_consumes(s);
}

/// An event ignores a property that it does not keep: where a content line
/// with such a name stands at the head of what is left of the block, and is
/// neither the head of an alarm nor the block's end, the block parses as it
/// does without that line.
pub proof fn lemma_event_ignores_unknown(s: Seq<char>, acc: EventModel)
    requires
        spec_alarm(s) is Err,
        spec_end(s, "VEVENT"@) is Err,
        spec_content_line(s) matches Ok((p, _)) && spec_event_field(p.name) is None,
    ensures
        spec_content_line(s) matches Ok((_, rest)) && spec_event_body(s, acc) == spec_event_body(
            rest,
            acc,
        ),
{
    lemma_content_line_consumes(s);
}

/// A calendar ignores a property that it does not keep: where a content line
/// with such a name stands at the head of what is left of the block, and is
/// neither the head of a nested block nor the block's end, the block parses
/// as it does without that line.
pub proof fn lemma_calendar_ignores_unknown(s: Seq<char>, acc: CalendarModel)
    requires
        spec_event(s) is Err,
        spec_timezone(s) is Err,
        spec_end(s, "VCALENDAR"@) is Err,
        spec_content_line(s) matches Ok((p, _)) && spec_calendar_field(p.name) is None,
    ensures
        spec_content_line(s) matches Ok((_, rest)) && spec_calendar_body(s, acc)
            == spec_calendar_body(rest, acc),
{
    lemma_content_line_consumes(s);
}

/// A timezone takes its identifier from a `TZID` line in the block itself
/// and from nothing else: a content line of another name, or one inside a
/// nested block (at a depth other than 1), leaves the timezone as it is.
pub proof fn lemma_timezone_ignores_other_lines(s: Seq<char>, depth: int, acc: TimezoneModel)
    requires
        !starts_with(s, "BEGIN:"@),
        !starts_with(s, "END:"@),
        spec_content_line(s) matches Ok((p, _)) && (p.name != "TZID"@ || depth != 1),
    ensures
        spec_content_line(s) matches Ok((_, rest)) && spec_timezone_body(s, depth, acc)
            == spec_timezone_body(rest, depth, acc),
{
    lemma_content_line_consumes(s);
    reveal_strlit("END:");
    reveal_strlit("END:VTIMEZONE");
    if starts_with(s, "END:VTIMEZONE"@) {
        assert(s.take(4) =~= s.take(13).take(4));
        assert("END:VTIMEZONE"@.take(4) =~= "END:"@);
    }
}

/// Whether the marker `END:<name>` stands somewhere in `s` with `rest` right
/// behind it and its line ending.
pub open spec fn ends_at_marker(s: Seq<char>, name: Seq<char>, rest: Seq<char>) -> bool {
    exists|t: Seq<char>|
        is_suffix_of(t, s) && #[trigger] spec_end(t, name) == Ok::<_, ErrorModel>(
            rest,
        )
}

/// A marker that ends `s` at its head ends it.
proof fn lemma_ends_here(s: Seq<char>, name: Seq<char>, rest: Seq<char>)
    requires
        spec_end(s, name) == Ok::<_, ErrorModel>(rest),
    ensures
        ends_at_marker(s, name, rest),
{
    assert(s.skip(0) =~= s);
    assert(is_suffix_of(s, s));
}

/// A marker that stands in a suffix of `s` stands in `s`.
proof fn lemma_ends_later(s: Seq<char>, mid: Seq<char>, name: Seq<char>, rest: Seq<char>)
    requires
        is_suffix_of(mid, s),
        ends_at_marker(mid, name, rest),
    ensures
        ends_at_marker(s, name, rest),
{
    let t = choose|t: Seq<char>|
        is_suffix_of(t, mid) && #[trigger] spec_end(t, name) == Ok::<_, ErrorModel>(
            rest,
        );
    assert(t =~= s.skip(s.len() - t.len()));
    assert(is_suffix_of(t, s));
}

/// What is left of an alarm is parsed only up to an `END:VALARM`.
pub proof fn lemma_alarm_body_needs_end(s: Seq<char>, acc: AlarmModel)
    ensures
        spec_alarm_body(s, acc) matches Ok((_, rest)) ==> ends_at_marker(s, "VALARM"@, rest),
    decreases s.len(),
{
    if let Ok((_, last)) = spec_alarm_body(s, acc) {
        if spec_end(s, "VALARM"@) is Ok {
            lemma_ends_here(s, "VALARM"@, last);
        } else {
            lemma_content_line_consumes(s);
            let (p, rest) = spec_content_line(s)->Ok_0;
            lemma_alarm_body_needs_end(rest, alarm_with(acc, p));
            lemma_ends_later(s, rest, "VALARM"@, last);
        }
    }
}

/// What is left of an event is parsed only up to an `END:VEVENT`.
pub proof fn lemma_event_body_needs_end(s: Seq<char>, acc: EventModel)
    ensures
        spec_event_body(s, acc) matches Ok((_, rest)) ==> ends_at_marker(s, "VEVENT"@, rest),
    decreases s.len(),
{
    if let Ok((_, last)) = spec_event_body(s, acc) {
        lemma_alarm_consumes(s);
        lemma_content_line_consumes(s);
        if let Ok((alarm, rest)) = spec_alarm(s) {
            lemma_event_body_needs_end(rest, event_with_alarm(acc, alarm));
            lemma_ends_later(s, rest, "VEVENT"@, last);
        } else if spec_end(s, "VEVENT"@) is Ok {
            lemma_ends_here(s, "VEVENT"@, last);
        } else {
            let (p, rest) = spec_content_line(s)->Ok_0;
            lemma_event_body_needs_end(rest, event_with(acc, p));
            lemma_ends_later(s, rest, "VEVENT"@, last);
        }
    }
}

/// What is left of a timezone is parsed only up to an `END:VTIMEZONE`.
pub proof fn lemma_timezone_body_needs_end(s: Seq<char>, depth: int, acc: TimezoneModel)
    ensures
        spec_timezone_body(s, depth, acc) matches Ok((_, rest)) ==> ends_at_marker(
            s,
            "VTIMEZONE"@,
            rest,
        ),
    decreases s.len(),
{
    if let Ok((_, last)) = spec_timezone_body(s, depth, acc) {
        lemma_content_line_consumes(s);
        if starts_with(s, "BEGIN:"@) {
            lemma_marker_line_consumes(s);
            let rest = spec_line_text(s)->Some_0.1;
            lemma_timezone_body_needs_end(rest, depth + 1, acc);
            lemma_ends_later(s, rest, "VTIMEZONE"@, last);
        } else if starts_with(s, "END:VTIMEZONE"@) {
            lemma_ends_here(s, "VTIMEZONE"@, last);
        } else if starts_with(s, "END:"@) {
            lemma_marker_line_consumes(s);
            let rest = spec_line_text(s)->Some_0.1;
            lemma_timezone_body_needs_end(rest, depth - 1, acc);
            lemma_ends_later(s, rest, "VTIMEZONE"@, last);
        } else {
            let (p, rest) = spec_content_line(s)->Ok_0;
            let next = timezone_with(acc, p, depth);
            lemma_timezone_body_needs_end(rest, depth, next);
            lemma_ends_later(s, rest, "VTIMEZONE"@, last);
        }
    }
}

/// What is left of a calendar is parsed only up to an `END:VCALENDAR`.
pub proof fn lemma_calendar_body_needs_end(s: Seq<char>, acc: CalendarModel)
    ensures
        spec_calendar_body(s, acc) matches Ok((_, rest)) ==> ends_at_marker(
            s,
            "VCALENDAR"@,
            rest,
        ),
    decreases s.len(),
{
    if let Ok((_, last)) = spec_calendar_body(s, acc) {
        lemma_event_consumes(s);
        lemma_timezone_consumes(s);
        lemma_content_line_consumes(s);
        if let Ok((event, rest)) = spec_event(s) {
            lemma_calendar_body_needs_end(rest, calendar_with_event(acc, event));
            lemma_ends_later(s, rest, "VCALENDAR"@, last);
        } else if let Ok((tz, rest)) = spec_timezone(s) {
            lemma_calendar_body_needs_end(rest, calendar_with_timezone(acc, tz));
            lemma_ends_later(s, rest, "VCALENDAR"@, last);
        } else if spec_end(s, "VCALENDAR"@) is Ok {
            lemma_ends_here(s, "VCALENDAR"@, last);
        } else {
            let (p, rest) = spec_content_line(s)->Ok_0;
            lemma_calendar_body_needs_end(rest, calendar_with(acc, p));
            lemma_ends_later(s, rest, "VCALENDAR"@, last);
        }
    }
}

/// An alarm is parsed only up to its `END:VALARM`: a block that is opened
/// and not closed by that marker is a failure, never an alarm.
pub proof fn lemma_alarm_needs_end(s: Seq<char>)
    ensures
        spec_alarm(s) matches Ok((_, rest)) ==> ends_at_marker(s, "VALARM"@, rest),
{
    if let Ok(body) = spec_begin(s, "VALARM"@) {
        lemma_marker_consumes(s, "BEGIN:"@, "VALARM"@);
        lemma_alarm_body_needs_end(body, AlarmModel::empty());
        if let Ok((_, rest)) = spec_alarm(s) {
            lemma_ends_later(s, body, "VALARM"@, rest);
        }
    }
}

/// An event is parsed only up to its `END:VEVENT`: a block that is opened
/// and not closed by that marker is a failure, never an event.
pub proof fn lemma_event_needs_end(s: Seq<char>)
    ensures
        spec_event(s) matches Ok((_, rest)) ==> ends_at_marker(s, "VEVENT"@, rest),
{
    if let Ok(body) = spec_begin(s, "VEVENT"@) {
        lemma_marker_consumes(s, "BEGIN:"@, "VEVENT"@);
        lemma_event_body_needs_end(body, EventModel::empty());
        if let Ok((_, rest)) = spec_event(s) {
            lemma_ends_later(s, body, "VEVENT"@, rest);
        }
    }
}

/// A timezone is parsed only up to its `END:VTIMEZONE`: a block that is
/// opened and not closed by that marker is a failure, never a timezone.
pub proof fn lemma_timezone_needs_end(s: Seq<char>)
    ensures
        spec_timezone(s) matches Ok((_, rest)) ==> ends_at_marker(s, "VTIMEZONE"@, rest),
{
    if let Ok(body) = spec_begin(s, "VTIMEZONE"@) {
        lemma_marker_consumes(s, "BEGIN:"@, "VTIMEZONE"@);
        lemma_timezone_body_needs_end(body, 1, TimezoneModel::empty());
        if let Ok((_, rest)) = spec_timezone(s) {
            lemma_ends_later(s, body, "VTIMEZONE"@, rest);
        }
    }
}

/// A calendar is parsed only up to its `END:VCALENDAR`: a document whose
/// calendar is opened and not closed by that marker is a failure, never a
/// calendar.
pub proof fn lemma_calendar_needs_end(s: Seq<char>)
    ensures
        spec_calendar(s) matches Ok((_, rest)) ==> ends_at_marker(s, "VCALENDAR"@, rest),
{
    if let Ok(body) = spec_begin(s, "VCALENDAR"@) {
        lemma_marker_consumes(s, "BEGIN:"@, "VCALENDAR"@);
        lemma_calendar_body_needs_end(body, CalendarModel::empty());
        if let Ok((_, rest)) = spec_calendar(s) {
            lemma_ends_later(s, body, "VCALENDAR"@, rest);
        }
    }
}

} // verus!
