//! The parsed tree: calendar, event, alarm, timezone and date-time value,
//! each with its view over sequences of characters.

use vstd::prelude::*;
use vstd::string::*;

verus! {

/// The characters of an optional slice.
pub open spec fn opt_view(o: Option<&str>) -> Option<Seq<char>> {
    match o {
        Some(s) => Some(s@),
        None => None,
    }
}

/// The value of a `DTSTART` or `DTEND` property as it stands in the text,
/// and the timezone identifier that the property names, if it names one.
#[derive(Debug, Clone, PartialEq)]
pub struct DateTime<'a> {
    pub value: &'a str,
    pub tzid: Option<&'a str>,
}

/// A date-time value over sequences of characters.
pub struct DateTimeModel {
    pub value: Seq<char>,
    pub tzid: Option<Seq<char>>,
}

impl<'a> View for DateTime<'a> {
    type V = DateTimeModel;

    open spec fn view(&self) -> DateTimeModel {
        DateTimeModel { value: self.value@, tzid: opt_view(self.tzid) }
    }
}

/// The view of an optional date-time value.
pub open spec fn opt_datetime_view(o: Option<DateTime>) -> Option<DateTimeModel> {
    match o {
        Some(d) => Some(d@),
        None => None,
    }
}

/// A `VALARM` block.
#[derive(Debug, Clone, PartialEq)]
pub struct VAlarm<'a> {
    pub trigger: Option<&'a str>,
    pub action: Option<&'a str>,
    pub description: Option<&'a str>,
    pub repeat: Option<&'a str>,
    pub duration: Option<&'a str>,
}

/// An alarm over sequences of characters.
pub struct AlarmModel {
    pub trigger: Option<Seq<char>>,
    pub action: Option<Seq<char>>,
    pub description: Option<Seq<char>>,
    pub repeat: Option<Seq<char>>,
    pub duration: Option<Seq<char>>,
}

impl AlarmModel {
    /// The alarm with no field set.
    pub open spec fn empty() -> AlarmModel {
        AlarmModel { trigger: None, action: None, description: None, repeat: None, duration: None }
    }
}

impl<'a> View for VAlarm<'a> {
    type V = AlarmModel;

    open spec fn view(&self) -> AlarmModel {
        AlarmModel {
            trigger: opt_view(self.trigger),
            action: opt_view(self.action),
            description: opt_view(self.description),
            repeat: opt_view(self.repeat),
            duration: opt_view(self.duration),
        }
    }
}

impl<'a> Default for VAlarm<'a> {
    fn default() -> (r: Self)
        ensures
            r@ == AlarmModel::empty(),
    {
        VAlarm { trigger: None, action: None, description: None, repeat: None, duration: None }
    }
}

/// The views of the alarms `v`, in their order.
pub open spec fn alarms_view<'a>(v: Seq<VAlarm<'a>>) -> Seq<AlarmModel> {
    Seq::new(v.len(), |i: int| v[i]@)
}

/// A `VEVENT` block.
#[derive(Debug, Clone, PartialEq)]
pub struct VEvent<'a> {
    pub uid: Option<&'a str>,
    pub summary: Option<&'a str>,
    pub description: Option<&'a str>,
    pub location: Option<&'a str>,
    pub dtstart: Option<DateTime<'a>>,
    pub dtend: Option<DateTime<'a>>,
    pub dtstamp: Option<&'a str>,
    pub status: Option<&'a str>,
    pub rrule: Option<&'a str>,
    pub categories: Option<&'a str>,
    pub organizer: Option<&'a str>,
    pub url: Option<&'a str>,
    pub priority: Option<&'a str>,
    pub sequence: Option<&'a str>,
    pub transp: Option<&'a str>,
    pub created: Option<&'a str>,
    pub last_modified: Option<&'a str>,
    pub alarms: Vec<VAlarm<'a>>,
}

/// An event over sequences of characters.
pub struct EventModel {
    pub uid: Option<Seq<char>>,
    pub summary: Option<Seq<char>>,
    pub description: Option<Seq<char>>,
    pub location: Option<Seq<char>>,
    pub dtstart: Option<DateTimeModel>,
    pub dtend: Option<DateTimeModel>,
    pub dtstamp: Option<Seq<char>>,
    pub status: Option<Seq<char>>,
    pub rrule: Option<Seq<char>>,
    pub categories: Option<Seq<char>>,
    pub organizer: Option<Seq<char>>,
    pub url: Option<Seq<char>>,
    pub priority: Option<Seq<char>>,
    pub sequence: Option<Seq<char>>,
    pub transp: Option<Seq<char>>,
    pub created: Option<Seq<char>>,
    pub last_modified: Option<Seq<char>>,
    pub alarms: Seq<AlarmModel>,
}

impl EventModel {
    /// The event with no field set and no alarm.
    pub open spec fn empty() -> EventModel {
        EventModel {
            uid: None,
            summary: None,
            description: None,
            location: None,
            dtstart: None,
            dtend: None,
            dtstamp: None,
            status: None,
            rrule: None,
            categories: None,
            organizer: None,
            url: None,
            priority: None,
            sequence: None,
            transp: None,
            created: None,
            last_modified: None,
            alarms: Seq::empty(),
        }
    }
}

impl<'a> View for VEvent<'a> {
    type V = EventModel;

    open spec fn view(&self) -> EventModel {
        EventModel {
            uid: opt_view(self.uid),
            summary: opt_view(self.summary),
            description: opt_view(self.description),
            location: opt_view(self.location),
            dtstart: opt_datetime_view(self.dtstart),
            dtend: opt_datetime_view(self.dtend),
            dtstamp: opt_view(self.dtstamp),
            status: opt_view(self.status),
            rrule: opt_view(self.rrule),
            categories: opt_view(self.categories),
            organizer: opt_view(self.organizer),
            url: opt_view(self.url),
            priority: opt_view(self.priority),
            sequence: opt_view(self.sequence),
            transp: opt_view(self.transp),
            created: opt_view(self.created),
            last_modified: opt_view(self.last_modified),
            alarms: alarms_view(self.alarms@),
        }
    }
}

impl<'a> Default for VEvent<'a> {
    fn default() -> (r: Self)
        ensures
            r@ == EventModel::empty(),
    {
        let r = VEvent {
            uid: None,
            summary: None,
            description: None,
            location: None,
            dtstart: None,
            dtend: None,
            dtstamp: None,
            status: None,
            rrule: None,
            categories: None,
            organizer: None,
            url: None,
            priority: None,
            sequence: None,
            transp: None,
            created: None,
            last_modified: None,
            alarms: Vec::new(),
        };
        assert(r@.alarms =~= Seq::<AlarmModel>::empty());
        r
    }
}

/// The views of the events `v`, in their order.
pub open spec fn events_view<'a>(v: Seq<VEvent<'a>>) -> Seq<EventModel> {
    Seq::new(v.len(), |i: int| v[i]@)
}

/// A `VTIMEZONE` block.
#[derive(Debug, Clone, PartialEq)]
pub struct VTimezone<'a> {
    pub tzid: Option<&'a str>,
}

/// A timezone over sequences of characters.
pub struct TimezoneModel {
    pub tzid: Option<Seq<char>>,
}

impl TimezoneModel {
    /// The timezone with no identifier.
    pub open spec fn empty() -> TimezoneModel {
        TimezoneModel { tzid: None }
    }
}

impl<'a> View for VTimezone<'a> {
    type V = TimezoneModel;

    open spec fn view(&self) -> TimezoneModel {
        TimezoneModel { tzid: opt_view(self.tzid) }
    }
}

impl<'a> Default for VTimezone<'a> {
    fn default() -> (r: Self)
        ensures
            r@ == TimezoneModel::empty(),
    {
        VTimezone { tzid: None }
    }
}

/// The views of the timezones `v`, in their order.
pub open spec fn timezones_view<'a>(v: Seq<VTimezone<'a>>) -> Seq<TimezoneModel> {
    Seq::new(v.len(), |i: int| v[i]@)
}

/// A `VCALENDAR` block: the root of a parsed document.
#[derive(Debug, Clone, PartialEq)]
pub struct VCalendar<'a> {
    pub version: Option<&'a str>,
    pub prodid: Option<&'a str>,
    pub events: Vec<VEvent<'a>>,
    pub timezones: Vec<VTimezone<'a>>,
}

/// A calendar over sequences of characters.
pub struct CalendarModel {
    pub version: Option<Seq<char>>,
    pub prodid: Option<Seq<char>>,
    pub events: Seq<EventModel>,
    pub timezones: Seq<TimezoneModel>,
}

impl CalendarModel {
    /// The calendar with no field set, no event and no timezone.
    pub open spec fn empty() -> CalendarModel {
        CalendarModel {
            version: None,
            prodid: None,
            events: Seq::empty(),
            timezones: Seq::empty(),
        }
    }
}

impl<'a> View for VCalendar<'a> {
    type V = CalendarModel;

    open spec fn view(&self) -> CalendarModel {
        CalendarModel {
            version: opt_view(self.version),
            prodid: opt_view(self.prodid),
            events: events_view(self.events@),
            timezones: timezones_view(self.timezones@),
        }
    }
}

} // verus!
