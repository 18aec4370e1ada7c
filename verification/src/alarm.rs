//! The `VALARM` block.

use vstd::prelude::*;
use vstd::string::*;
use crate::error::{ErrorKind, ErrorModel, ParseError};
use crate::line::{
    begin_component, content_line, end_component, lemma_content_line_consumes,
    lemma_marker_consumes, spec_begin, spec_content_line, spec_end, str_eq, unterminated,
    Property, PropertyModel,
};
use crate::model::{AlarmModel, VAlarm};
use crate::text::{first_char, is_suffix_of, lemma_suffix_of_suffix};

verus! {

/// The properties that an alarm keeps.
#[derive(Debug, Clone, Copy, PartialEq, Eq, Structural)]
pub enum AlarmField {
    Trigger,
    Action,
    Description,
    Repeat,
    Duration,
}

/// The field that a property of the given name sets in an alarm; none for a
/// name that an alarm does not keep.
pub open spec fn spec_alarm_field(name: Seq<char>) -> Option<AlarmField> {
    if name == "TRIGGER"@ {
        Some(AlarmField::Trigger)
    } else if name == "ACTION"@ {
        Some(AlarmField::Action)
    } else if name == "DESCRIPTION"@ {
        Some(AlarmField::Description)
    } else if name == "REPEAT"@ {
        Some(AlarmField::Repeat)
    } else if name == "DURATION"@ {
        Some(AlarmField::Duration)
    } else {
        None
    }
}

/// The alarm `a` with `field` set to `value`.
pub open spec fn alarm_with_field(
    a: AlarmModel,
    field: AlarmField,
    value: Seq<char>,
) -> AlarmModel {
    match field {
        AlarmField::Trigger => AlarmModel { trigger: Some(value), ..a },
        AlarmField::Action => AlarmModel { action: Some(value), ..a },
        AlarmField::Description => AlarmModel { description: Some(value), ..a },
        AlarmField::Repeat => AlarmModel { repeat: Some(value), ..a },
        AlarmField::Duration => AlarmModel { duration: Some(value), ..a },
    }
}

/// The alarm `a` after the property `p`: with the field of that name set to
/// the property's value, and unchanged where an alarm keeps no such property.
pub open spec fn alarm_with(a: AlarmModel, p: PropertyModel) -> AlarmModel {
    match spec_alarm_field(p.name) {
        Some(field) => alarm_with_field(a, field, p.value),
        None => a,
    }
}

/// What stands in a `VALARM` block from `s` on, gathered into `acc`: at each
/// line first the block's end is tried, then a content line.
pub open spec fn spec_alarm_body(s: Seq<char>, acc: AlarmModel) -> Result<
    (AlarmModel, Seq<char>),
    ErrorModel,
>
    decreases s.len(),
    via spec_alarm_body_decreases
{
    match spec_end(s, "VALARM"@) {
        Ok(rest) => Ok((acc, rest)),
        Err(_) => if s.len() == 0 {
            Err(unterminated(s))
        } else {
            match spec_content_line(s) {
                Err(e) => Err(e),
                Ok((p, rest)) => spec_alarm_body(rest, alarm_with(acc, p)),
            }
        },
    }
}

#[via_fn]
proof fn spec_alarm_body_decreases(s: Seq<char>, acc: AlarmModel) {
    lemma_content_line_consumes(s);
}

/// The `VALARM` block at the head of `s` and what follows it.
pub open spec fn spec_alarm(s: Seq<char>) -> Result<(AlarmModel, Seq<char>), ErrorModel> {
    match spec_begin(s, "VALARM"@) {
        Err(e) => Err(e),
        Ok(rest) => spec_alarm_body(rest, AlarmModel::empty()),
    }
}

/// What follows the body of an alarm is a suffix of the text.
pub proof fn lemma_alarm_body_consumes(s: Seq<char>, acc: AlarmModel)
    ensures
        spec_alarm_body(s, acc) matches Ok((_, rest)) ==> is_suffix_of(rest, s),
    decreases s.len(),
{
    if let Ok((_, last)) = spec_alarm_body(s, acc) {
        if spec_end(s, "VALARM"@) is Ok {
            lemma_marker_consumes(s, "END:"@, "VALARM"@);
        } else {
            lemma_content_line_consumes(s);
            let (p, rest) = spec_content_line(s)->Ok_0;
            lemma_alarm_body_consumes(rest, alarm_with(acc, p));
            lemma_suffix_of_suffix(last, rest, s);
        }
    }
}

/// An alarm is never empty: what follows it is a proper suffix of the text.
pub proof fn lemma_alarm_consumes(s: Seq<char>)
    ensures
        spec_alarm(s) matches Ok((_, rest)) ==> is_suffix_of(rest, s) && rest.len() < s.len(),
{
    lemma_marker_consumes(s, "BEGIN:"@, "VALARM"@);
    if let Ok(body) = spec_begin(s, "VALARM"@) {
        reveal_strlit("BEGIN:");
        lemma_alarm_body_consumes(body, AlarmModel::empty());
        if let Ok((_, rest)) = spec_alarm_body(body, AlarmModel::empty()) {
            lemma_suffix_of_suffix(rest, body, s);
        }
    }
}

/// The field that a property of the given name sets in an alarm.
pub fn alarm_field(name: &str) -> (r: Option<AlarmField>)
    ensures
        r == spec_alarm_field(name@),
{
    if str_eq(name, "TRIGGER") {
        Some(AlarmField::Trigger)
    } else if str_eq(name, "ACTION") {
        Some(AlarmField::Action)
    } else if str_eq(name, "DESCRIPTION") {
        Some(AlarmField::Description)
    } else if str_eq(name, "REPEAT") {
        Some(AlarmField::Repeat)
    } else if str_eq(name, "DURATION") {
        Some(AlarmField::Duration)
    } else {
        None
    }
}

impl<'a> VAlarm<'a> {
    /// Sets `field` to `value`.
    pub fn set(&mut self, field: AlarmField, value: &'a str)
        ensures
            final(self)@ == alarm_with_field(old(self)@, field, value@),
    {
        match field {
            AlarmField::Trigger => {
                self.trigger = Some(value);
            },
            AlarmField::Action => {
                self.action = Some(value);
            },
            AlarmField::Description => {
                self.description = Some(value);
            },
            AlarmField::Repeat => {
                self.repeat = Some(value);
            },
            AlarmField::Duration => {
                self.duration = Some(value);
            },
        }
    }

    /// Takes the property `prop` in: sets the field of its name to its
    /// value, and does nothing where an alarm keeps no such property.
    pub fn apply(&mut self, prop: &Property<'a>)
        ensures
            final(self)@ == alarm_with(old(self)@, prop@),
    {
        match alarm_field(prop.name) {
            Some(field) => {
                self.set(field, prop.value);
            },
            None => {},
        }
    }
}

/// Parses the `VALARM` block at the head of `input`.
pub fn parse_valarm<'a>(input: &'a str) -> (r: Result<(&'a str, VAlarm<'a>), ParseError<'a>>)
    ensures
        match r {
            Ok((rest, alarm)) => spec_alarm(input@) == Ok::<_, ErrorModel>((alarm@, rest@)),
            Err(e) => spec_alarm(input@) == Err::<(AlarmModel, Seq<char>), _>(e@),
        },
{
    let body = match begin_component(input, "VALARM") {
        Ok(rest) => rest,
        Err(e) => {
            return Err(e);
        },
    };
    let mut alarm = VAlarm::default();
    let mut remaining = body;
    loop
        invariant
            spec_alarm(input@) == spec_alarm_body(remaining@, alarm@),
        decreases remaining@.len(),
    {
        match end_component(remaining, "VALARM") {
            Ok(rest) => {
                return Ok((rest, alarm));
            },
            Err(_) => {},
        }
        if first_char(remaining).is_none() {
            return Err(ParseError { kind: ErrorKind::UnterminatedBlock, rest: remaining });
        }
        match content_line(remaining) {
            Err(e) => {
                return Err(e);
            },
            Ok((rest, prop)) => {
                proof {
                    lemma_content_line_consumes(remaining@);
                }
                alarm.apply(&prop);
                remaining = rest;
            },
        }
    }
}

} // verus!
