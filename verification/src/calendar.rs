//! The `VCALENDAR` block: the root of a document.

use vstd::prelude::*;
use vstd::string::*;
use crate::error::{ErrorKind, ErrorModel, ParseError};
use crate::event::{lemma_event_consumes, parse_vevent, spec_event};
use crate::line::{
    begin_component, content_line, end_component, lemma_content_line_consumes,
    lemma_marker_consumes, spec_begin, spec_content_line, spec_end, str_eq, unterminated,
    Property, PropertyModel,
};
use crate::model::{
    events_view, timezones_view, CalendarModel, EventModel, TimezoneModel, VCalendar, VEvent,
    VTimezone,
};
use crate::text::{first_char, is_suffix_of, lemma_suffix_of_suffix};
use crate::timezone::{lemma_timezone_consumes, parse_vtimezone, spec_timezone};

verus! {

/// The properties that a calendar keeps.
#[derive(Debug, Clone, Copy, PartialEq, Eq, Structural)]
pub enum CalendarField {
    Version,
    Prodid,
}

/// The field that a property of the given name sets in a calendar; none for
/// a name that a calendar does not keep.
pub open spec fn spec_calendar_field(name: Seq<char>) -> Option<CalendarField> {
    if name == "VERSION"@ {
        Some(CalendarField::Version)
    } else if name == "PRODID"@ {
        Some(CalendarField::Prodid)
    } else {
        None
    }
}

/// The calendar `c` with `field` set to `value`.
pub open spec fn calendar_with_field(
    c: CalendarModel,
    field: CalendarField,
    value: Seq<char>,
) -> CalendarModel {
    match field {
        CalendarField::Version => CalendarModel { version: Some(value), ..c },
        CalendarField::Prodid => CalendarModel { prodid: Some(value), ..c },
    }
}

/// The calendar `c` after the property `p`: with the field of that name set
/// to the property's value, and unchanged where a calendar keeps no such
/// property.
pub open spec fn calendar_with(c: CalendarModel, p: PropertyModel) -> CalendarModel {
    match spec_calendar_field(p.name) {
        Some(field) => calendar_with_field(c, field, p.value),
        None => c,
    }
}

/// The calendar `c` with the event `e` behind its other events.
pub open spec fn calendar_with_event(c: CalendarModel, e: EventModel) -> CalendarModel {
    CalendarModel { events: c.events.push(e), ..c }
}

/// The calendar `c` with the timezone `tz` behind its other timezones.
pub open spec fn calendar_with_timezone(c: CalendarModel, tz: TimezoneModel) -> CalendarModel {
    CalendarModel { timezones: c.timezones.push(tz), ..c }
}

/// What stands in a `VCALENDAR` block from `s` on, gathered into `acc`: at
/// each line first a nested event is tried, then a nested timezone, then the
/// block's end, then a content line. A nested block that fails leaves the
/// text where it was for the next try.
pub open spec fn spec_calendar_body(s: Seq<char>, acc: CalendarModel) -> Result<
    (CalendarModel, Seq<char>),
    ErrorModel,
>
    decreases s.len(),
    via spec_calendar_body_decreases
{
    match spec_event(s) {
        Ok((event, rest)) => spec_calendar_body(rest, calendar_with_event(acc, event)),
        Err(_) => match spec_timezone(s) {
            Ok((tz, rest)) => spec_calendar_body(rest, calendar_with_timezone(acc, tz)),
            Err(_) => match spec_end(s, "VCALENDAR"@) {
                Ok(rest) => Ok((acc, rest)),
                Err(_) => if s.len() == 0 {
                    Err(unterminated(s))
                } else {
                    match spec_content_line(s) {
                        Err(e) => Err(e),
                        Ok((p, rest)) => spec_calendar_body(rest, calendar_with(acc, p)),
                    }
                },
            },
        },
    }
}

#[via_fn]
proof fn spec_calendar_body_decreases(s: Seq<char>, acc: CalendarModel) {
    lemma_content_line_consumes(s);
    lemma_event_consumes(s);
    lemma_timezone_consumes(s);
}

/// The `VCALENDAR` block at the head of `s` and what follows it.
pub open spec fn spec_calendar(s: Seq<char>) -> Result<(CalendarModel, Seq<char>), ErrorModel> {
    match spec_begin(s, "VCALENDAR"@) {
        Err(e) => Err(e),
        Ok(rest) => spec_calendar_body(rest, CalendarModel::empty()),
    }
}

/// What follows the body of a calendar is a suffix of the text.
pub proof fn lemma_calendar_body_consumes(s: Seq<char>, acc: CalendarModel)
    ensures
        spec_calendar_body(s, acc) matches Ok((_, rest)) ==> is_suffix_of(rest, s),
    decreases s.len(),
{
    if let Ok((_, last)) = spec_calendar_body(s, acc) {
        if let Ok((event, rest)) = spec_event(s) {
            lemma_event_consumes(s);
            lemma_calendar_body_consumes(rest, calendar_with_event(acc, event));
            lemma_suffix_of_suffix(last, rest, s);
        } else if let Ok((tz, rest)) = spec_timezone(s) {
            lemma_timezone_consumes(s);
            lemma_calendar_body_consumes(rest, calendar_with_timezone(acc, tz));
            lemma_suffix_of_suffix(last, rest, s);
        } else if spec_end(s, "VCALENDAR"@) is Ok {
            lemma_marker_consumes(s, "END:"@, "VCALENDAR"@);
        } else {
            lemma_content_line_consumes(s);
            let (p, rest) = spec_content_line(s)->Ok_0;
            lemma_calendar_body_consumes(rest, calendar_with(acc, p));
            lemma_suffix_of_suffix(last, rest, s);
        }
    }
}

/// A calendar is never empty: what follows it is a proper suffix of the
/// text.
pub proof fn lemma_calendar_consumes(s: Seq<char>)
    ensures
        spec_calendar(s) matches Ok((_, rest)) ==> is_suffix_of(rest, s) && rest.len() < s.len(),
{
    lemma_marker_consumes(s, "BEGIN:"@, "VCALENDAR"@);
    if let Ok(body) = spec_begin(s, "VCALENDAR"@) {
        reveal_strlit("BEGIN:");
        lemma_calendar_body_consumes(body, CalendarModel::empty());
        if let Ok((_, rest)) = spec_calendar_body(body, CalendarModel::empty()) {
            lemma_suffix_of_suffix(rest, body, s);
        }
    }
}

/// The field that a property of the given name sets in a calendar.
pub fn calendar_field(name: &str) -> (r: Option<CalendarField>)
    ensures
        r == spec_calendar_field(name@),
{
    if str_eq(name, "VERSION") {
        Some(CalendarField::Version)
    } else if str_eq(name, "PRODID") {
        Some(CalendarField::Prodid)
    } else {
        None
    }
}

impl<'a> VCalendar<'a> {
    /// The calendar with no field set, no event and no timezone.
    pub fn new() -> (r: Self)
        ensures
            r@ == CalendarModel::empty(),
    {
        let r = VCalendar {
            version: None,
            prodid: None,
            events: Vec::new(),
            timezones: Vec::new(),
        };
        assert(r@.events =~= Seq::<EventModel>::empty());
        assert(r@.timezones =~= Seq::<TimezoneModel>::empty());
        r
    }

    /// Sets `field` to `value`.
    pub fn set(&mut self, field: CalendarField, value: &'a str)
        ensures
            final(self)@ == calendar_with_field(old(self)@, field, value@),
    {
        match field {
            CalendarField::Version => {
                self.version = Some(value);
            },
            CalendarField::Prodid => {
                self.prodid = Some(value);
            },
        }
    }

    /// Takes the property `prop` in: sets the field of its name to its
    /// value, and does nothing where a calendar keeps no such property.
    pub fn apply(&mut self, prop: &Property<'a>)
        ensures
            final(self)@ == calendar_with(old(self)@, prop@),
    {
        match calendar_field(prop.name) {
            Some(field) => {
                self.set(field, prop.value);
            },
            None => {},
        }
    }

    /// Puts `event` behind the events that the calendar has.
    pub fn add_event(&mut self, event: VEvent<'a>)
        ensures
            final(self)@ == calendar_with_event(old(self)@, event@),
    {
        self.events.push(event);
        assert(events_view(self.events@) =~= events_view(old(self).events@).push(event@));
    }

    /// Puts `tz` behind the timezones that the calendar has.
    pub fn add_timezone(&mut self, tz: VTimezone<'a>)
        ensures
            final(self)@ == calendar_with_timezone(old(self)@, tz@),
    {
        self.timezones.push(tz);
        assert(timezones_view(self.timezones@) =~= timezones_view(old(self).timezones@).push(tz@));
    }
}

/// Parses the `VCALENDAR` block at the head of `input`, which is taken as
/// unfolded: the calendar and the text behind the block, or the failure at
/// which the parse stopped.
pub fn parse_vcalendar<'a>(input: &'a str) -> (r: Result<
    (&'a str, VCalendar<'a>),
    ParseError<'a>,
>)
    ensures
        match r {
            Ok((rest, calendar)) => spec_calendar(input@) == Ok::<_, ErrorModel>(
                (calendar@, rest@),
            ),
            Err(e) => spec_calendar(input@) == Err::<(CalendarModel, Seq<char>), _>(e@),
        },
{
    let body = match begin_component(input, "VCALENDAR") {
        Ok(rest) => rest,
        Err(e) => {
            return Err(e);
        },
    };
    let mut calendar = VCalendar::new();
    let mut remaining = body;
    loop
        invariant
            spec_calendar(input@) == spec_calendar_body(remaining@, calendar@),
        decreases remaining@.len(),
    {
        match parse_vevent(remaining) {
            Ok((rest, event)) => {
                proof {
                    lemma_event_consumes(remaining@);
                }
                calendar.add_event(event);
                remaining = rest;
                continue;
            },
            Err(_) => {},
        }
        match parse_vtimezone(remaining) {
            Ok((rest, tz)) => {
                proof {
                    lemma_timezone_consumes(remaining@);
                }
                calendar.add_timezone(tz);
                remaining = rest;
                continue;
            },
            Err(_) => {},
        }
        match end_component(remaining, "VCALENDAR") {
            Ok(rest) => {
                return Ok((rest, calendar));
            },
            Err(_) => {},
        }
        if first_char(remaining).is_none() {
            return Err(ParseError { kind: ErrorKind::UnterminatedBlock, rest: remaining });
        }
        match content_line(remaining) {
            Err(e) => {
                return Err(e);
            },
            Ok((rest, prop)) => {
                proof {
                    lemma_content_line_consumes(remaining@);
                }
                calendar.apply(&prop);
                remaining = rest;
            },
        }
    }
}

} // verus!
