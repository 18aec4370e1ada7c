//! The `VEVENT` block, its date-time values and its nested alarms.

use vstd::prelude::*;
use vstd::string::*;
use crate::alarm::{lemma_alarm_consumes, parse_valarm, spec_alarm};
use crate::error::{ErrorKind, ErrorModel, ParseError};
use crate::line::{
    begin_component, content_line, end_component, lemma_content_line_consumes,
    lemma_marker_consumes, params_view, spec_begin, spec_content_line, spec_end, str_eq,
    unterminated, Property, PropertyModel,
};
use crate::model::{
    alarms_view, opt_view, AlarmModel, DateTime, DateTimeModel, EventModel, VAlarm, VEvent,
};
use crate::text::{first_char, is_suffix_of, lemma_suffix_of_suffix};

verus! {

/// The value of the first of `params` that is named `name`.
pub open spec fn spec_param_value(params: Seq<(Seq<char>, Seq<char>)>, name: Seq<char>) -> Option<
    Seq<char>,
>
    decreases params.len(),
{
    if params.len() == 0 {
        None
    } else if params[0].0 == name {
        Some(params[0].1)
    } else {
        spec_param_value(params.skip(1), name)
    }
}

/// The date-time value that a `DTSTART` or `DTEND` property carries: its
/// value as it stands, and the value of its first `TZID` parameter.
pub open spec fn spec_datetime(p: PropertyModel) -> DateTimeModel {
    DateTimeModel { value: p.value, tzid: spec_param_value(p.params, "TZID"@) }
}

impl<'a> Property<'a> {
    /// The value of the first parameter named `name`.
    pub fn param(&self, name: &str) -> (r: Option<&'a str>)
        ensures
            opt_view(r) == spec_param_value(self@.params, name@),
    {
        let n = self.params.len();
        let mut i: usize = 0;
        assert(self@.params.skip(0) =~= self@.params);
        while i < n
            invariant
                n == self.params@.len(),
                i <= n,
                spec_param_value(self@.params, name@) == spec_param_value(
                    self@.params.skip(i as int),
                    name@,
                ),
            decreases n - i,
        {
            let p = self.params[i];
            proof {
                assert(self@.params.skip(i as int)[0] == (p.0@, p.1@));
                assert(self@.params.skip(i as int).skip(1) =~= self@.params.skip(i + 1));
            }
            if str_eq(p.0, name) {
                return Some(p.1);
            }
            i += 1;
        }
        None
    }
}

/// The date-time value of a `DTSTART` or `DTEND` property: the property's
/// value as it stands in the text, and the timezone identifier that its
/// `TZID` parameter names, if it has one. The value is not read as a date.
pub fn make_datetime<'a>(prop: &Property<'a>) -> (r: DateTime<'a>)
    ensures
        r@ == spec_datetime(prop@),
{
    DateTime { value: prop.value, tzid: prop.param("TZID") }
}

/// The properties that an event keeps.
#[derive(Debug, Clone, Copy, PartialEq, Eq, Structural)]
pub enum EventField {
    Uid,
    Summary,
    Description,
    Location,
    Dtstamp,
    Status,
    Rrule,
    Categories,
    Organizer,
    Url,
    Priority,
    Sequence,
    Transp,
    Created,
    LastModified,
    Dtstart,
    Dtend,
}

/// The field that a property of the given name sets in an event; none for a
/// name that an event does not keep.
pub open spec fn spec_event_field(name: Seq<char>) -> Option<EventField> {
    if name == "UID"@ {
        Some(EventField::Uid)
    } else if name == "SUMMARY"@ {
        Some(EventField::Summary)
    } else if name == "DESCRIPTION"@ {
        Some(EventField::Description)
    } else if name == "LOCATION"@ {
        Some(EventField::Location)
    } else if name == "DTSTAMP"@ {
        Some(EventField::Dtstamp)
    } else if name == "STATUS"@ {
        Some(EventField::Status)
    } else if name == "RRULE"@ {
        Some(EventField::Rrule)
    } else if name == "CATEGORIES"@ {
        Some(EventField::Categories)
    } else if name == "ORGANIZER"@ {
        Some(EventField::Organizer)
    } else if name == "URL"@ {
        Some(EventField::Url)
    } else if name == "PRIORITY"@ {
        Some(EventField::Priority)
    } else if name == "SEQUENCE"@ {
        Some(EventField::Sequence)
    } else if name == "TRANSP"@ {
        Some(EventField::Transp)
    } else if name == "CREATED"@ {
        Some(EventField::Created)
    } else if name == "LAST-MODIFIED"@ {
        Some(EventField::LastModified)
    } else if name == "DTSTART"@ {
        Some(EventField::Dtstart)
    } else if name == "DTEND"@ {
        Some(EventField::Dtend)
    } else {
        None
    }
}

/// The event `e` with `field` set from the property `p`: to the property's
/// date-time value for `DTSTART` and `DTEND`, to its value for the others.
pub open spec fn event_with_field(
    e: EventModel,
    field: EventField,
    p: PropertyModel,
) -> EventModel {
    match field {
        EventField::Uid => EventModel { uid: Some(p.value), ..e },
        EventField::Summary => EventModel { summary: Some(p.value), ..e },
        EventField::Description => EventModel { description: Some(p.value), ..e },
        EventField::Location => EventModel { location: Some(p.value), ..e },
        EventField::Dtstamp => EventModel { dtstamp: Some(p.value), ..e },
        EventField::Status => EventModel { status: Some(p.value), ..e },
        EventField::Rrule => EventModel { rrule: Some(p.value), ..e },
        EventField::Categories => EventModel { categories: Some(p.value), ..e },
        EventField::Organizer => EventModel { organizer: Some(p.value), ..e },
        EventField::Url => EventModel { url: Some(p.value), ..e },
        EventField::Priority => EventModel { priority: Some(p.value), ..e },
        EventField::Sequence => EventModel { sequence: Some(p.value), ..e },
        EventField::Transp => EventModel { transp: Some(p.value), ..e },
        EventField::Created => EventModel { created: Some(p.value), ..e },
        EventField::LastModified => EventModel { last_modified: Some(p.value), ..e },
        EventField::Dtstart => EventModel { dtstart: Some(spec_datetime(p)), ..e },
        EventField::Dtend => EventModel { dtend: Some(spec_datetime(p)), ..e },
    }
}

/// The event `e` after the property `p`: with the field of that name set,
/// and unchanged where an event keeps no such property.
pub open spec fn event_with(e: EventModel, p: PropertyModel) -> EventModel {
    match spec_event_field(p.name) {
        Some(field) => event_with_field(e, field, p),
        None => e,
    }
}

/// The event `e` with the alarm `a` behind its other alarms.
pub open spec fn event_with_alarm(e: EventModel, a: AlarmModel) -> EventModel {
    EventModel { alarms: e.alarms.push(a), ..e }
}

/// What stands in a `VEVENT` block from `s` on, gathered into `acc`: at each
/// line first a nested alarm is tried, then the block's end, then a content
/// line. An alarm that fails leaves the text where it was for the next try.
pub open spec fn spec_event_body(s: Seq<char>, acc: EventModel) -> Result<
    (EventModel, Seq<char>),
    ErrorModel,
>
    decreases s.len(),
    via spec_event_body_decreases
{
    match spec_alarm(s) {
        Ok((alarm, rest)) => spec_event_body(rest, event_with_alarm(acc, alarm)),
        Err(_) => match spec_end(s, "VEVENT"@) {
            Ok(rest) => Ok((acc, rest)),
            Err(_) => if s.len() == 0 {
                Err(unterminated(s))
            } else {
                match spec_content_line(s) {
                    Err(e) => Err(e),
                    Ok((p, rest)) => spec_event_body(rest, event_with(acc, p)),
                }
            },
        },
    }
}

#[via_fn]
proof fn spec_event_body_decreases(s: Seq<char>, acc: EventModel) {
    lemma_content_line_consumes(s);
    lemma_alarm_consumes(s);
}

/// The `VEVENT` block at the head of `s` and what follows it.
pub open spec fn spec_event(s: Seq<char>) -> Result<(EventModel, Seq<char>), ErrorModel> {
    match spec_begin(s, "VEVENT"@) {
        Err(e) => Err(e),
        Ok(rest) => spec_event_body(rest, EventModel::empty()),
    }
}

/// What follows the body of an event is a suffix of the text.
pub proof fn lemma_event_body_consumes(s: Seq<char>, acc: EventModel)
    ensures
        spec_event_body(s, acc) matches Ok((_, rest)) ==> is_suffix_of(rest, s),
    decreases s.len(),
{
    if let Ok((_, last)) = spec_event_body(s, acc) {
        if let Ok((alarm, rest)) = spec_alarm(s) {
            lemma_alarm_consumes(s);
            lemma_event_body_consumes(rest, event_with_alarm(acc, alarm));
            lemma_suffix_of_suffix(last, rest, s);
        } else if spec_end(s, "VEVENT"@) is Ok {
            lemma_marker_consumes(s, "END:"@, "VEVENT"@);
        } else {
            lemma_content_line_consumes(s);
            let (p, rest) = spec_content_line(s)->Ok_0;
            lemma_event_body_consumes(rest, event_with(acc, p));
            lemma_suffix_of_suffix(last, rest, s);
        }
    }
}

/// An event is never empty: what follows it is a proper suffix of the text.
pub proof fn lemma_event_consumes(s: Seq<char>)
    ensures
        spec_event(s) matches Ok((_, rest)) ==> is_suffix_of(rest, s) && rest.len() < s.len(),
{
    lemma_marker_consumes(s, "BEGIN:"@, "VEVENT"@);
    if let Ok(body) = spec_begin(s, "VEVENT"@) {
        reveal_strlit("BEGIN:");
        lemma_event_body_consumes(body, EventModel::empty());
        if let Ok((_, rest)) = spec_event_body(body, EventModel::empty()) {
            lemma_suffix_of_suffix(rest, body, s);
        }
    }
}

/// The field that a property of the given name sets in an event.
pub fn event_field(name: &str) -> (r: Option<EventField>)
    ensures
        r == spec_event_field(name@),
{
    if str_eq(name, "UID") {
        Some(EventField::Uid)
    } else if str_eq(name, "SUMMARY") {
        Some(EventField::Summary)
    } else if str_eq(name, "DESCRIPTION") {
        Some(EventField::Description)
    } else if str_eq(name, "LOCATION") {
        Some(EventField::Location)
    } else if str_eq(name, "DTSTAMP") {
        Some(EventField::Dtstamp)
    } else if str_eq(name, "STATUS") {
        Some(EventField::Status)
    } else if str_eq(name, "RRULE") {
        Some(EventField::Rrule)
    } else if str_eq(name, "CATEGORIES") {
        Some(EventField::Categories)
    } else if str_eq(name, "ORGANIZER") {
        Some(EventField::Organizer)
    } else if str_eq(name, "URL") {
        Some(EventField::Url)
    } else if str_eq(name, "PRIORITY") {
        Some(EventField::Priority)
    } else if str_eq(name, "SEQUENCE") {
        Some(EventField::Sequence)
    } else if str_eq(name, "TRANSP") {
        Some(EventField::Transp)
    } else if str_eq(name, "CREATED") {
        Some(EventField::Created)
    } else if str_eq(name, "LAST-MODIFIED") {
        Some(EventField::LastModified)
    } else if str_eq(name, "DTSTART") {
        Some(EventField::Dtstart)
    } else if str_eq(name, "DTEND") {
        Some(EventField::Dtend)
    } else {
        None
    }
}

impl<'a> VEvent<'a> {
    /// Sets `field` from the property `prop`.
    pub fn set(&mut self, field: EventField, prop: &Property<'a>)
        ensures
            final(self)@ == event_with_field(old(self)@, field, prop@),
    {
        match field {
            EventField::Uid => {
                self.uid = Some(prop.value);
            },
            EventField::Summary => {
                self.summary = Some(prop.value);
            },
            EventField::Description => {
                self.description = Some(prop.value);
            },
            EventField::Location => {
                self.location = Some(prop.value);
            },
            EventField::Dtstamp => {
                self.dtstamp = Some(prop.value);
            },
            EventField::Status => {
                self.status = Some(prop.value);
            },
            EventField::Rrule => {
                self.rrule = Some(prop.value);
            },
            EventField::Categories => {
                self.categories = Some(prop.value);
            },
            EventField::Organizer => {
                self.organizer = Some(prop.value);
            },
            EventField::Url => {
                self.url = Some(prop.value);
            },
            EventField::Priority => {
                self.priority = Some(prop.value);
            },
            EventField::Sequence => {
                self.sequence = Some(prop.value);
            },
            EventField::Transp => {
                self.transp = Some(prop.value);
            },
            EventField::Created => {
                self.created = Some(prop.value);
            },
            EventField::LastModified => {
                self.last_modified = Some(prop.value);
            },
            EventField::Dtstart => {
                self.dtstart = Some(make_datetime(prop));
            },
            EventField::Dtend => {
                self.dtend = Some(make_datetime(prop));
            },
        }
    }

    /// Takes the property `prop` in: sets the field of its name, and does
    /// nothing where an event keeps no such property.
    pub fn apply(&mut self, prop: &Property<'a>)
        ensures
            final(self)@ == event_with(old(self)@, prop@),
    {
        match event_field(prop.name) {
            Some(field) => {
                self.set(field, prop);
            },
            None => {},
        }
    }

    /// Puts `alarm` behind the alarms that the event has.
    pub fn add_alarm(&mut self, alarm: VAlarm<'a>)
        ensures
            final(self)@ == event_with_alarm(old(self)@, alarm@),
    {
        self.alarms.push(alarm);
        assert(alarms_view(self.alarms@) =~= alarms_view(old(self).alarms@).push(alarm@));
    }
}

/// Parses the `VEVENT` block at the head of `input`.
pub fn parse_vevent<'a>(input: &'a str) -> (r: Result<(&'a str, VEvent<'a>), ParseError<'a>>)
    ensures
        match r {
            Ok((rest, event)) => spec_event(input@) == Ok::<_, ErrorModel>((event@, rest@)),
            Err(e) => spec_event(input@) == Err::<(EventModel, Seq<char>), _>(e@),
        },
{
    let body = match begin_component(input, "VEVENT") {
        Ok(rest) => rest,
        Err(e) => {
            return Err(e);
        },
    };
    let mut event = VEvent::default();
    let mut remaining = body;
    loop
        invariant
            spec_event(input@) == spec_event_body(remaining@, event@),
        decreases remaining@.len(),
    {
        match parse_valarm(remaining) {
            Ok((rest, alarm)) => {
                proof {
                    lemma_alarm_consumes(remaining@);
                }
                event.add_alarm(alarm);
                remaining = rest;
                continue;
            },
            Err(_) => {},
        }
        match end_component(remaining, "VEVENT") {
            Ok(rest) => {
                return Ok((rest, event));
            },
            Err(_) => {},
        }
        if first_char(remaining).is_none() {
            return Err(ParseError { kind: ErrorKind::UnterminatedBlock, rest: remaining });
        }
        match content_line(remaining) {
            Err(e) => {
                return Err(e);
            },
            Ok((rest, prop)) => {
                proof {
                    lemma_content_line_consumes(remaining@);
                }
                event.apply(&prop);
                remaining = rest;
            },
        }
    }
}

} // verus!
