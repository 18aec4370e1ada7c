//! The `VTIMEZONE` block. Its nested blocks are not parsed: their `BEGIN:`
//! and `END:` lines only move a depth counter.

use vstd::prelude::*;
use vstd::string::*;
use crate::error::{ErrorKind, ErrorModel, ParseError};
use crate::line::{
    begin_component, content_line, end_component, lemma_content_line_consumes,
    lemma_line_text_suffix, lemma_marker_consumes, malformed, spec_begin, spec_content_line,
    spec_end, spec_line_text, starts_with, str_eq, strip_prefix, take_line, unterminated,
    Property, PropertyModel,
};
use crate::model::{TimezoneModel, VTimezone};
use crate::text::{
    byte_len, class_has, first_char, is_suffix_of, lemma_run_len_at_least,
    lemma_suffix_of_suffix, CharClass,
};

verus! {

/// The timezone `tz` after the property `p` seen at `depth`: with its
/// identifier set to the property's value where the property is `TZID` and
/// stands in the block itself (depth 1), and unchanged otherwise.
pub open spec fn timezone_with(tz: TimezoneModel, p: PropertyModel, depth: int) -> TimezoneModel {
    if p.name == "TZID"@ && depth == 1 {
        TimezoneModel { tzid: Some(p.value) }
    } else {
        tz
    }
}

/// What stands in a `VTIMEZONE` block from `s` on, gathered into `acc`, with
/// `depth` blocks open (the block itself counts). A line that begins with
/// `BEGIN:` opens a block and one that begins with `END:` closes one, both
/// without being parsed any further; `END:VTIMEZONE` ends the block, at
/// whatever depth it stands; any other line is a content line.
pub open spec fn spec_timezone_body(s: Seq<char>, depth: int, acc: TimezoneModel) -> Result<
    (TimezoneModel, Seq<char>),
    ErrorModel,
>
    decreases s.len(),
    via spec_timezone_body_decreases
{
    if starts_with(s, "BEGIN:"@) {
        match spec_line_text(s) {
            None => Err(malformed(s)),
            Some((_, rest)) => spec_timezone_body(rest, depth + 1, acc),
        }
    } else if starts_with(s, "END:VTIMEZONE"@) {
        match spec_end(s, "VTIMEZONE"@) {
            Ok(rest) => Ok((acc, rest)),
            Err(e) => Err(e),
        }
    } else if starts_with(s, "END:"@) {
        match spec_line_text(s) {
            None => Err(malformed(s)),
            Some((_, rest)) => spec_timezone_body(rest, depth - 1, acc),
        }
    } else if s.len() == 0 {
        Err(unterminated(s))
    } else {
        match spec_content_line(s) {
            Err(e) => Err(e),
            Ok((p, rest)) => spec_timezone_body(rest, depth, timezone_with(acc, p, depth)),
        }
    }
}

/// A line that begins with `BEGIN:` or `END:` takes at least four characters.
pub proof fn lemma_marker_line_consumes(s: Seq<char>)
    requires
        starts_with(s, "BEGIN:"@) || starts_with(s, "END:"@),
    ensures
        spec_line_text(s) matches Some((_, rest)) ==> is_suffix_of(rest, s) && rest.len() + 4
            <= s.len(),
{
    reveal_strlit("BEGIN:");
    reveal_strlit("END:");
    lemma_line_text_suffix(s);
    if starts_with(s, "BEGIN:"@) {
        let lit = "BEGIN:"@;
        assert forall|i: int| 0 <= i < 4 implies class_has(
            CharClass::LineText,
            #[trigger] s[i],
        ) by {
            assert(s.take(lit.len() as int)[i] == lit[i]);
        }
    } else {
        let lit = "END:"@;
        assert forall|i: int| 0 <= i < 4 implies class_has(
            CharClass::LineText,
            #[trigger] s[i],
        ) by {
            assert(s.take(lit.len() as int)[i] == lit[i]);
        }
    }
    lemma_run_len_at_least(s, CharClass::LineText, 4);
}

#[via_fn]
proof fn spec_timezone_body_decreases(s: Seq<char>, depth: int, acc: TimezoneModel) {
    lemma_content_line_consumes(s);
    if starts_with(s, "BEGIN:"@) || starts_with(s, "END:"@) {
        lemma_marker_line_consumes(s);
    }
}

/// The `VTIMEZONE` block at the head of `s` and what follows it.
pub open spec fn spec_timezone(s: Seq<char>) -> Result<(TimezoneModel, Seq<char>), ErrorModel> {
    match spec_begin(s, "VTIMEZONE"@) {
        Err(e) => Err(e),
        Ok(rest) => spec_timezone_body(rest, 1, TimezoneModel::empty()),
    }
}

/// What follows the body of a timezone is a suffix of the text.
pub proof fn lemma_timezone_body_consumes(s: Seq<char>, depth: int, acc: TimezoneModel)
    ensures
        spec_timezone_body(s, depth, acc) matches Ok((_, rest)) ==> is_suffix_of(rest, s),
    decreases s.len(),
{
    if let Ok((_, last)) = spec_timezone_body(s, depth, acc) {
        if starts_with(s, "BEGIN:"@) {
            lemma_marker_line_consumes(s);
            let rest = spec_line_text(s)->Some_0.1;
            lemma_timezone_body_consumes(rest, depth + 1, acc);
            lemma_suffix_of_suffix(last, rest, s);
        } else if starts_with(s, "END:VTIMEZONE"@) {
            lemma_marker_consumes(s, "END:"@, "VTIMEZONE"@);
        } else if starts_with(s, "END:"@) {
            lemma_marker_line_consumes(s);
            let rest = spec_line_text(s)->Some_0.1;
            lemma_timezone_body_consumes(rest, depth - 1, acc);
            lemma_suffix_of_suffix(last, rest, s);
        } else {
            lemma_content_line_consumes(s);
            let (p, rest) = spec_content_line(s)->Ok_0;
            lemma_timezone_body_consumes(rest, depth, timezone_with(acc, p, depth));
            lemma_suffix_of_suffix(last, rest, s);
        }
    }
}

/// A timezone is never empty: what follows it is a proper suffix of the
/// text.
pub proof fn lemma_timezone_consumes(s: Seq<char>)
    ensures
        spec_timezone(s) matches Ok((_, rest)) ==> is_suffix_of(rest, s) && rest.len() < s.len(),
{
    lemma_marker_consumes(s, "BEGIN:"@, "VTIMEZONE"@);
    if let Ok(body) = spec_begin(s, "VTIMEZONE"@) {
        reveal_strlit("BEGIN:");
        lemma_timezone_body_consumes(body, 1, TimezoneModel::empty());
        if let Ok((_, rest)) = spec_timezone_body(body, 1, TimezoneModel::empty()) {
            lemma_suffix_of_suffix(rest, body, s);
        }
    }
}

impl<'a> VTimezone<'a> {
    /// Takes the property `prop`, seen with `depth` blocks open, in: sets
    /// the identifier where the property is `TZID` and `depth` is 1, and does
    /// nothing otherwise.
    pub fn apply(&mut self, prop: &Property<'a>, depth: i64)
        ensures
            final(self)@ == timezone_with(old(self)@, prop@, depth as int),
    {
        if str_eq(prop.name, "TZID") && depth == 1 {
            self.tzid = Some(prop.value);
        }
    }
}

/// Parses the `VTIMEZONE` block at the head of `input`.
pub fn parse_vtimezone<'a>(input: &'a str) -> (r: Result<
    (&'a str, VTimezone<'a>),
    ParseError<'a>,
>)
    ensures
        match r {
            Ok((rest, tz)) => spec_timezone(input@) == Ok::<_, ErrorModel>((tz@, rest@)),
            Err(e) => spec_timezone(input@) == Err::<(TimezoneModel, Seq<char>), _>(e@),
        },
{
    let body = match begin_component(input, "VTIMEZONE") {
        Ok(rest) => rest,
        Err(e) => {
            return Err(e);
        },
    };
    // The depth moves by one for a line of at least four characters, so the
    // length of the text bounds it.
    let limit = byte_len(body);
    let mut tz = VTimezone::default();
    let mut remaining = body;
    let mut depth: i64 = 1;
    loop
        invariant
            spec_timezone(input@) == spec_timezone_body(remaining@, depth as int, tz@),
            body@.len() <= limit,
            remaining@.len() <= body@.len(),
            4 * (depth - 1) <= body@.len() - remaining@.len(),
            4 * (1 - depth) <= body@.len() - remaining@.len(),
        decreases remaining@.len(),
    {
        if strip_prefix(remaining, "BEGIN:").is_some() {
            proof {
                lemma_marker_line_consumes(remaining@);
            }
            match take_line(remaining) {
                None => {
                    return Err(ParseError { kind: ErrorKind::MalformedLine, rest: remaining });
                },
                Some((_, rest)) => {
                    depth = depth + 1;
                    remaining = rest;
                },
            }
            continue;
        }
        if strip_prefix(remaining, "END:VTIMEZONE").is_some() {
            return match end_component(remaining, "VTIMEZONE") {
                Ok(rest) => Ok((rest, tz)),
                Err(e) => Err(e),
            };
        }
        if strip_prefix(remaining, "END:").is_some() {
            proof {
                lemma_marker_line_consumes(remaining@);
            }
            match take_line(remaining) {
                None => {
                    return Err(ParseError { kind: ErrorKind::MalformedLine, rest: remaining });
                },
                Some((_, rest)) => {
                    depth = depth - 1;
                    remaining = rest;
                },
            }
            continue;
        }
        if first_char(remaining).is_none() {
            return Err(ParseError { kind: ErrorKind::UnterminatedBlock, rest: remaining });
        }
        match content_line(remaining) {
            Err(e) => {
                return Err(e);
            },
            Ok((rest, prop)) => {
                proof {
                    lemma_content_line_consumes(remaining@);
                }
                tz.apply(&prop, depth);
                remaining = rest;
            },
        }
    }
}

} // verus!
