//! Parsing is local to lines: what a parser does on a text that ends with a
//! line feed does not depend on what is put behind that text. From this,
//! a line that no block keeps can be taken out of a document without a
//! change to what the document parses to.

use vstd::prelude::*;
use vstd::string::*;
use crate::alarm::{
    alarm_with, lemma_alarm_consumes, spec_alarm, spec_alarm_body, spec_alarm_field,
};
use crate::calendar::{
    calendar_with, calendar_with_event, calendar_with_timezone, lemma_calendar_consumes,
    spec_calendar, spec_calendar_body, spec_calendar_field,
};
use crate::error::ErrorModel;
use crate::event::{
    event_with, event_with_alarm, lemma_event_consumes, spec_event, spec_event_body,
    spec_event_field,
};
use crate::line::{
    lemma_content_line_consumes, lemma_line_text_suffix, lemma_marker_consumes,
    lemma_parameter_consumes, lemma_parameters_suffix, line_ending_len, skip_line_ending,
    spec_begin, spec_content_line, spec_end, spec_line_text, spec_marker, spec_parameter,
    spec_parameters, starts_with,
};
use crate::model::{AlarmModel, CalendarModel, EventModel, TimezoneModel};
use crate::text::{class_has, is_suffix_of, lemma_run_len, run_len, CharClass};
use crate::timezone::{
    lemma_marker_line_consumes, lemma_timezone_consumes, spec_timezone, spec_timezone_body,
    timezone_with,
};

verus! {

/// Whether `x` is made of whole lines: it is empty or ends with a line feed.
pub open spec fn ends_lines(x: Seq<char>) -> bool {
    x.len() == 0 || x.last() == '\n'
}

/// Whether no line feed stands in `lit`.
pub open spec fn has_no_line_feed(lit: Seq<char>) -> bool {
    forall|i: int| 0 <= i < lit.len() ==> lit[i] != '\n'
}

/// The failure `e` of a parse of a text, as the failure of the parse of the
/// text with `y` behind it.
pub open spec fn extend_error(e: ErrorModel, y: Seq<char>) -> ErrorModel {
    ErrorModel { kind: e.kind, rest: e.rest + y }
}

/// The result `r` of a parse of a text, as the result of the parse of the
/// text with `y` behind it.
pub open spec fn extend<T>(r: Result<(T, Seq<char>), ErrorModel>, y: Seq<char>) -> Result<
    (T, Seq<char>),
    ErrorModel,
> {
    match r {
        Ok((v, rest)) => Ok((v, rest + y)),
        Err(e) => Err(extend_error(e, y)),
    }
}

/// The result `r` of a marker on a text, as the result on the text with `y`
/// behind it.
pub open spec fn extend_marker(r: Result<Seq<char>, ErrorModel>, y: Seq<char>) -> Result<
    Seq<char>,
    ErrorModel,
> {
    match r {
        Ok(rest) => Ok(rest + y),
        Err(e) => Err(extend_error(e, y)),
    }
}

/// Whether whole lines begin with a text without line feeds shows inside
/// them.
pub proof fn lemma_starts_with_local(x: Seq<char>, y: Seq<char>, lit: Seq<char>)
    requires
        x.len() > 0,
        ends_lines(x),
        has_no_line_feed(lit),
    ensures
        starts_with(x + y, lit) == starts_with(x, lit),
        starts_with(x, lit) ==> lit.len() < x.len(),
{
    let n = lit.len() as int;
    if starts_with(x + y, lit) {
        if n >= x.len() {
            assert((x + y).take(n)[x.len() - 1] == x.last());
            assert(lit[x.len() - 1] == '\n');
        }
        assert(x.take(n) =~= (x + y).take(n));
    }
    if starts_with(x, lit) {
        if n == x.len() {
            assert(x.take(n)[n - 1] == x.last());
            assert(lit[n - 1] == '\n');
        }
        assert((x + y).take(n) =~= x.take(n));
    }
}

/// A run of characters of a class that holds no line feed ends inside whole
/// lines.
pub proof fn lemma_run_len_local(x: Seq<char>, y: Seq<char>, class: CharClass)
    requires
        x.len() > 0,
        ends_lines(x),
        !class_has(class, '\n'),
    ensures
        run_len(x + y, class) == run_len(x, class),
        run_len(x, class) < x.len(),
    decreases x.len(),
{
    assert((x + y)[0] == x[0]);
    if class_has(class, x[0]) {
        assert(x.len() > 1);
        assert((x + y).skip(1) =~= x.skip(1) + y);
        assert(x.skip(1).last() == x.last());
        lemma_run_len_local(x.skip(1), y, class);
    }
}

/// The line ending at the head of whole lines shows inside them.
pub proof fn lemma_line_ending_local(x: Seq<char>, y: Seq<char>)
    requires
        x.len() > 0,
        ends_lines(x),
    ensures
        line_ending_len(x + y) == line_ending_len(x),
        skip_line_ending(x + y) == skip_line_ending(x) + y,
        is_suffix_of(skip_line_ending(x), x),
{
    assert((x + y)[0] == x[0]);
    if x.len() >= 2 {
        assert((x + y)[1] == x[1]);
    }
    let k = line_ending_len(x) as int;
    assert((x + y).skip(k) =~= x.skip(k) + y);
    assert(x.skip(k) =~= x.skip(x.len() - x.skip(k).len()));
}

/// The first line of whole lines shows inside them.
pub proof fn lemma_line_text_local(x: Seq<char>, y: Seq<char>)
    requires
        x.len() > 0,
        ends_lines(x),
    ensures
        spec_line_text(x + y) == match spec_line_text(x) {
            None => None,
            Some((text, rest)) => Some((text, rest + y)),
        },
        spec_line_text(x) matches Some((_, rest)) ==> is_suffix_of(rest, x) && rest.len()
            < x.len(),
{
    lemma_run_len_local(x, y, CharClass::LineText);
    lemma_run_len(x, CharClass::LineText);
    lemma_line_text_suffix(x);
    let v = run_len(x, CharClass::LineText) as int;
    let tail = x.skip(v);
    assert((x + y).skip(v) =~= tail + y);
    assert((x + y).take(v) =~= x.take(v));
    assert(tail.last() == x.last());
    lemma_line_ending_local(tail, y);
    assert(tail[0] == '\r' || tail[0] == '\n');
    assert((tail + y)[0] == tail[0]);
}

/// A parameter at the head of whole lines shows inside them.
pub proof fn lemma_parameter_local(x: Seq<char>, y: Seq<char>)
    requires
        x.len() > 0,
        ends_lines(x),
    ensures
        spec_parameter(x + y) == match spec_parameter(x) {
            None => None,
            Some((p, rest)) => Some((p, rest + y)),
        },
        spec_parameter(x) matches Some((_, rest)) ==> rest.len() > 0 && is_suffix_of(rest, x),
{
    lemma_parameter_consumes(x);
    assert((x + y)[0] == x[0]);
    if x[0] == ';' {
        let a = x.skip(1);
        assert((x + y).skip(1) =~= a + y);
        assert(a.last() == x.last());
        lemma_run_len_local(a, y, CharClass::Name);
        let n = run_len(a, CharClass::Name) as int;
        let b = a.skip(n);
        assert((a + y).skip(n) =~= b + y);
        assert((a + y).take(n) =~= a.take(n));
        assert((b + y)[0] == b[0]);
        if n != 0 && b[0] == '=' {
            let c = b.skip(1);
            assert(b.last() == x.last());
            assert((b + y).skip(1) =~= c + y);
            assert(c.last() == x.last());
            lemma_run_len_local(c, y, CharClass::ParamValue);
            let v = run_len(c, CharClass::ParamValue) as int;
            assert((c + y).skip(v) =~= c.skip(v) + y);
            assert((c + y).take(v) =~= c.take(v));
        }
    }
}

/// The parameters at the head of whole lines show inside them.
pub proof fn lemma_parameters_local(x: Seq<char>, y: Seq<char>)
    requires
        x.len() > 0,
        ends_lines(x),
    ensures
        spec_parameters(x + y) == (spec_parameters(x).0, spec_parameters(x).1 + y),
        spec_parameters(x).1.len() > 0,
        is_suffix_of(spec_parameters(x).1, x),
    decreases x.len(),
{
    lemma_parameter_local(x, y);
    lemma_parameter_consumes(x);
    lemma_parameters_suffix(x);
    if let Some((_, rest)) = spec_parameter(x) {
        lemma_parameters_local(rest, y);
    }
}

/// The content line at the head of whole lines shows inside them: behind
/// whatever follows the lines, the line parses as it does alone.
pub proof fn lemma_content_line_local(x: Seq<char>, y: Seq<char>)
    requires
        x.len() > 0,
        ends_lines(x),
    ensures
        spec_content_line(x + y) == extend(spec_content_line(x), y),
        spec_content_line(x) matches Ok((_, rest)) ==> is_suffix_of(rest, x) && rest.len()
            < x.len(),
{
    lemma_content_line_consumes(x);
    lemma_run_len_local(x, y, CharClass::Name);
    let n = run_len(x, CharClass::Name) as int;
    let after_name = x.skip(n);
    assert((x + y).skip(n) =~= after_name + y);
    assert((x + y).take(n) =~= x.take(n));
    assert(after_name.last() == x.last());
    lemma_parameters_local(after_name, y);
    let after = spec_parameters(after_name).1;
    assert((after + y)[0] == after[0]);
    if n != 0 && after[0] == ':' {
        let text = after.skip(1);
        assert((after + y).skip(1) =~= text + y);
        assert(after.last() == x.last());
        assert(text.last() == x.last());
        lemma_line_text_local(text, y);
    }
}

/// A marker at the head of whole lines shows inside them.
pub proof fn lemma_marker_local(x: Seq<char>, y: Seq<char>, word: Seq<char>, name: Seq<char>)
    requires
        x.len() > 0,
        ends_lines(x),
        has_no_line_feed(word),
        has_no_line_feed(name),
    ensures
        spec_marker(x + y, word, name) == extend_marker(spec_marker(x, word, name), y),
        spec_marker(x, word, name) matches Ok(rest) ==> is_suffix_of(rest, x),
{
    lemma_marker_consumes(x, word, name);
    lemma_starts_with_local(x, y, word);
    if starts_with(x, word) {
        let after_word = x.skip(word.len() as int);
        assert((x + y).skip(word.len() as int) =~= after_word + y);
        assert(after_word.last() == x.last());
        lemma_starts_with_local(after_word, y, name);
        if starts_with(after_word, name) {
            let after_name = after_word.skip(name.len() as int);
            assert((after_word + y).skip(name.len() as int) =~= after_name + y);
            assert(after_name.last() == x.last());
            lemma_line_ending_local(after_name, y);
        }
    }
}

/// Where a marker fails, it fails inside the text.
pub proof fn lemma_marker_error_suffix(s: Seq<char>, word: Seq<char>, name: Seq<char>)
    ensures
        spec_marker(s, word, name) matches Err(e) ==> is_suffix_of(e.rest, s),
{
    assert(s.skip(0) =~= s);
}

/// Where a content line fails, it fails inside the text.
pub proof fn lemma_content_line_error_suffix(s: Seq<char>)
    ensures
        spec_content_line(s) matches Err(e) ==> is_suffix_of(e.rest, s),
{
    assert(s.skip(0) =~= s);
    let n = run_len(s, CharClass::Name) as int;
    lemma_run_len(s, CharClass::Name);
    lemma_parameters_suffix(s.skip(n));
    let after = spec_parameters(s.skip(n)).1;
    assert(after =~= s.skip(s.len() - after.len()));
    if after.len() > 0 {
        assert(after.skip(1) =~= s.skip(s.len() - after.skip(1).len()));
    }
}

/// Whether `r1` and `r2` name the same place in two texts that differ only
/// in ending with `y1` and with `y2`: they are one text, or they are the
/// same whole lines before `y1` and before `y2`.
pub open spec fn same_place(r1: Seq<char>, r2: Seq<char>, y1: Seq<char>, y2: Seq<char>) -> bool {
    r1 == r2 || exists|x: Seq<char>| #[trigger] ends_lines(x) && r1 == x + y1 && r2 == x + y2
}

/// Whether two parses, of two texts that differ only in ending with `y1` and
/// with `y2`, came out alike: both gave the same value, or both failed in
/// the same way, and both stopped at the same place.
pub open spec fn alike<T>(
    a: Result<(T, Seq<char>), ErrorModel>,
    b: Result<(T, Seq<char>), ErrorModel>,
    y1: Seq<char>,
    y2: Seq<char>,
) -> bool {
    match (a, b) {
        (Ok((v1, r1)), Ok((v2, r2))) => v1 == v2 && same_place(r1, r2, y1, y2),
        (Err(e1), Err(e2)) => e1.kind == e2.kind && same_place(e1.rest, e2.rest, y1, y2),
        _ => false,
    }
}

/// Whole lines before `y1` and before `y2` are the same place.
proof fn lemma_same_place(x: Seq<char>, y1: Seq<char>, y2: Seq<char>)
    requires
        ends_lines(x),
    ensures
        same_place(x + y1, x + y2, y1, y2),
{
}

/// Whether what is left of an alarm parses from `y1` as from `y2`.
pub open spec fn alarm_skips(y1: Seq<char>, y2: Seq<char>) -> bool {
    forall|acc: AlarmModel| #[trigger] spec_alarm_body(y1, acc) == spec_alarm_body(y2, acc)
}

/// Whether what is left of an event parses from `y1` as from `y2`.
pub open spec fn event_skips(y1: Seq<char>, y2: Seq<char>) -> bool {
    forall|acc: EventModel| #[trigger] spec_event_body(y1, acc) == spec_event_body(y2, acc)
}

/// Whether what is left of a timezone parses from `y1` as from `y2`.
pub open spec fn timezone_skips(y1: Seq<char>, y2: Seq<char>) -> bool {
    forall|depth: int, acc: TimezoneModel| #[trigger]
        spec_timezone_body(y1, depth, acc) == spec_timezone_body(y2, depth, acc)
}

/// Whether what is left of a calendar parses from `y1` as from `y2`.
pub open spec fn calendar_skips(y1: Seq<char>, y2: Seq<char>) -> bool {
    forall|acc: CalendarModel| #[trigger]
        spec_calendar_body(y1, acc) == spec_calendar_body(y2, acc)
}

/// The names of the blocks hold no line feed.
proof fn lemma_literals()
    ensures
        has_no_line_feed("BEGIN:"@),
        has_no_line_feed("END:"@),
        has_no_line_feed("END:VTIMEZONE"@),
        has_no_line_feed("VALARM"@),
        has_no_line_feed("VEVENT"@),
        has_no_line_feed("VTIMEZONE"@),
        has_no_line_feed("VCALENDAR"@),
{
    reveal_strlit("BEGIN:");
    reveal_strlit("END:");
    reveal_strlit("END:VTIMEZONE");
    reveal_strlit("VALARM");
    reveal_strlit("VEVENT");
    reveal_strlit("VTIMEZONE");
    reveal_strlit("VCALENDAR");
}

/// What is left of an alarm, from whole lines on, parses alike whether `y1`
/// or `y2` follows the lines, where the alarm parses from `y1` as from `y2`.
pub proof fn lemma_alarm_body_alike(x: Seq<char>, y1: Seq<char>, y2: Seq<char>, acc: AlarmModel)
    requires
        ends_lines(x),
        alarm_skips(y1, y2),
    ensures
        alike(spec_alarm_body(x + y1, acc), spec_alarm_body(x + y2, acc), y1, y2),
    decreases x.len(),
{
    if x.len() == 0 {
        assert(x + y1 =~= y1);
        assert(x + y2 =~= y2);
    } else {
        lemma_literals();
        let name = "VALARM"@;
        lemma_marker_local(x, y1, "END:"@, name);
        lemma_marker_local(x, y2, "END:"@, name);
        lemma_content_line_local(x, y1);
        lemma_content_line_local(x, y2);
        lemma_content_line_error_suffix(x);
        match spec_end(x, name) {
            Ok(rest) => {
                lemma_same_place(rest, y1, y2);
            },
            Err(_) => {
                match spec_content_line(x) {
                    Err(e) => {
                        lemma_same_place(e.rest, y1, y2);
                    },
                    Ok((p, rest)) => {
                        lemma_alarm_body_alike(rest, y1, y2, alarm_with(acc, p));
                    },
                }
            },
        }
    }
}

/// An alarm at the head of whole lines parses alike whether `y1` or `y2`
/// follows the lines.
pub proof fn lemma_alarm_alike(x: Seq<char>, y1: Seq<char>, y2: Seq<char>)
    requires
        x.len() > 0,
        ends_lines(x),
        alarm_skips(y1, y2),
    ensures
        alike(spec_alarm(x + y1), spec_alarm(x + y2), y1, y2),
{
    lemma_literals();
    let name = "VALARM"@;
    lemma_marker_local(x, y1, "BEGIN:"@, name);
    lemma_marker_local(x, y2, "BEGIN:"@, name);
    lemma_marker_error_suffix(x, "BEGIN:"@, name);
    match spec_begin(x, name) {
        Ok(rest) => {
            lemma_alarm_body_alike(rest, y1, y2, AlarmModel::empty());
        },
        Err(e) => {
            lemma_same_place(e.rest, y1, y2);
        },
    }
}

/// What is left of an event, from whole lines on, parses alike whether `y1`
/// or `y2` follows the lines, where alarm and event parse from `y1` as from
/// `y2`.
pub proof fn lemma_event_body_alike(x: Seq<char>, y1: Seq<char>, y2: Seq<char>, acc: EventModel)
    requires
        ends_lines(x),
        alarm_skips(y1, y2),
        event_skips(y1, y2),
    ensures
        alike(spec_event_body(x + y1, acc), spec_event_body(x + y2, acc), y1, y2),
    decreases x.len(),
{
    if x.len() == 0 {
        assert(x + y1 =~= y1);
        assert(x + y2 =~= y2);
    } else {
        lemma_literals();
        let name = "VEVENT"@;
        lemma_alarm_alike(x, y1, y2);
        lemma_alarm_consumes(x + y1);
        lemma_marker_local(x, y1, "END:"@, name);
        lemma_marker_local(x, y2, "END:"@, name);
        lemma_content_line_local(x, y1);
        lemma_content_line_local(x, y2);
        lemma_content_line_error_suffix(x);
        match spec_alarm(x + y1) {
            Ok((alarm, r1)) => {
                let r2 = spec_alarm(x + y2)->Ok_0.1;
                let next = event_with_alarm(acc, alarm);
                if r1 != r2 {
                    let rest = choose|rest: Seq<char>| #[trigger]
                        ends_lines(rest) && r1 == rest + y1 && r2 == rest + y2;
                    lemma_event_body_alike(rest, y1, y2, next);
                }
            },
            Err(_) => {
                match spec_end(x, name) {
                    Ok(rest) => {
                        lemma_same_place(rest, y1, y2);
                    },
                    Err(_) => {
                        match spec_content_line(x) {
                            Err(e) => {
                                lemma_same_place(e.rest, y1, y2);
                            },
                            Ok((p, rest)) => {
                                lemma_event_body_alike(rest, y1, y2, event_with(acc, p));
                            },
                        }
                    },
                }
            },
        }
    }
}

/// An event at the head of whole lines parses alike whether `y1` or `y2`
/// follows the lines.
pub proof fn lemma_event_alike(x: Seq<char>, y1: Seq<char>, y2: Seq<char>)
    requires
        x.len() > 0,
        ends_lines(x),
        alarm_skips(y1, y2),
        event_skips(y1, y2),
    ensures
        alike(spec_event(x + y1), spec_event(x + y2), y1, y2),
{
    lemma_literals();
    let name = "VEVENT"@;
    lemma_marker_local(x, y1, "BEGIN:"@, name);
    lemma_marker_local(x, y2, "BEGIN:"@, name);
    lemma_marker_error_suffix(x, "BEGIN:"@, name);
    match spec_begin(x, name) {
        Ok(rest) => {
            lemma_event_body_alike(rest, y1, y2, EventModel::empty());
        },
        Err(e) => {
            lemma_same_place(e.rest, y1, y2);
        },
    }
}

/// What is left of a timezone, from whole lines on, parses alike whether
/// `y1` or `y2` follows the lines, where the timezone parses from `y1` as
/// from `y2`.
pub proof fn lemma_timezone_body_alike(
    x: Seq<char>,
    y1: Seq<char>,
    y2: Seq<char>,
    depth: int,
    acc: TimezoneModel,
)
    requires
        ends_lines(x),
        timezone_skips(y1, y2),
    ensures
        alike(
            spec_timezone_body(x + y1, depth, acc),
            spec_timezone_body(x + y2, depth, acc),
            y1,
            y2,
        ),
    decreases x.len(),
{
    if x.len() == 0 {
        assert(x + y1 =~= y1);
        assert(x + y2 =~= y2);
    } else {
        lemma_literals();
        let name = "VTIMEZONE"@;
        lemma_starts_with_local(x, y1, "BEGIN:"@);
        lemma_starts_with_local(x, y2, "BEGIN:"@);
        lemma_starts_with_local(x, y1, "END:VTIMEZONE"@);
        lemma_starts_with_local(x, y2, "END:VTIMEZONE"@);
        lemma_starts_with_local(x, y1, "END:"@);
        lemma_starts_with_local(x, y2, "END:"@);
        lemma_line_text_local(x, y1);
        lemma_line_text_local(x, y2);
        lemma_marker_local(x, y1, "END:"@, name);
        lemma_marker_local(x, y2, "END:"@, name);
        lemma_marker_error_suffix(x, "END:"@, name);
        lemma_content_line_local(x, y1);
        lemma_content_line_local(x, y2);
        lemma_content_line_error_suffix(x);
        assert(x.skip(0) =~= x);
        if starts_with(x, "BEGIN:"@) {
            match spec_line_text(x) {
                None => {
                    lemma_same_place(x, y1, y2);
                },
                Some((_, rest)) => {
                    lemma_timezone_body_alike(rest, y1, y2, depth + 1, acc);
                },
            }
        } else if starts_with(x, "END:VTIMEZONE"@) {
            match spec_end(x, name) {
                Ok(rest) => {
                    lemma_same_place(rest, y1, y2);
                },
                Err(e) => {
                    lemma_same_place(e.rest, y1, y2);
                },
            }
        } else if starts_with(x, "END:"@) {
            match spec_line_text(x) {
                None => {
                    lemma_same_place(x, y1, y2);
                },
                Some((_, rest)) => {
                    lemma_timezone_body_alike(rest, y1, y2, depth - 1, acc);
                },
            }
        } else {
            match spec_content_line(x) {
                Err(e) => {
                    lemma_same_place(e.rest, y1, y2);
                },
                Ok((p, rest)) => {
                    lemma_timezone_body_alike(rest, y1, y2, depth, timezone_with(acc, p, depth));
                },
            }
        }
    }
}

/// A timezone at the head of whole lines parses alike whether `y1` or `y2`
/// follows the lines.
pub proof fn lemma_timezone_alike(x: Seq<char>, y1: Seq<char>, y2: Seq<char>)
    requires
        x.len() > 0,
        ends_lines(x),
        timezone_skips(y1, y2),
    ensures
        alike(spec_timezone(x + y1), spec_timezone(x + y2), y1, y2),
{
    lemma_literals();
    let name = "VTIMEZONE"@;
    lemma_marker_local(x, y1, "BEGIN:"@, name);
    lemma_marker_local(x, y2, "BEGIN:"@, name);
    lemma_marker_error_suffix(x, "BEGIN:"@, name);
    match spec_begin(x, name) {
        Ok(rest) => {
            lemma_timezone_body_alike(rest, y1, y2, 1, TimezoneModel::empty());
        },
        Err(e) => {
            lemma_same_place(e.rest, y1, y2);
        },
    }
}

/// Whether every block parses what is left of it from `y1` as from `y2`.
pub open spec fn all_skip(y1: Seq<char>, y2: Seq<char>) -> bool {
    &&& alarm_skips(y1, y2)
    &&& event_skips(y1, y2)
    &&& timezone_skips(y1, y2)
    &&& calendar_skips(y1, y2)
}

/// What is left of a calendar, from whole lines on, parses alike whether
/// `y1` or `y2` follows the lines, where every block parses from `y1` as
/// from `y2`.
pub proof fn lemma_calendar_body_alike(
    x: Seq<char>,
    y1: Seq<char>,
    y2: Seq<char>,
    acc: CalendarModel,
)
    requires
        ends_lines(x),
        all_skip(y1, y2),
    ensures
        alike(spec_calendar_body(x + y1, acc), spec_calendar_body(x + y2, acc), y1, y2),
    decreases x.len(),
{
    if x.len() == 0 {
        assert(x + y1 =~= y1);
        assert(x + y2 =~= y2);
    } else {
        lemma_event_alike(x, y1, y2);
        if let Ok((event, r1)) = spec_event(x + y1) {
            lemma_event_consumes(x + y1);
            let r2 = spec_event(x + y2)->Ok_0.1;
            if r1 != r2 {
                let rest = choose|rest: Seq<char>| #[trigger]
                    ends_lines(rest) && r1 == rest + y1 && r2 == rest + y2;
                lemma_calendar_body_alike(rest, y1, y2, calendar_with_event(acc, event));
            }
        } else {
            lemma_timezone_alike(x, y1, y2);
            if let Ok((tz, r1)) = spec_timezone(x + y1) {
                lemma_timezone_consumes(x + y1);
                let r2 = spec_timezone(x + y2)->Ok_0.1;
                if r1 != r2 {
                    let rest = choose|rest: Seq<char>| #[trigger]
                        ends_lines(rest) && r1 == rest + y1 && r2 == rest + y2;
                    lemma_calendar_body_alike(rest, y1, y2, calendar_with_timezone(acc, tz));
                }
            } else {
                lemma_literals();
                let name = "VCALENDAR"@;
                lemma_marker_local(x, y1, "END:"@, name);
                lemma_marker_local(x, y2, "END:"@, name);
                match spec_end(x, name) {
                    Ok(rest) => {
                        lemma_same_place(rest, y1, y2);
                    },
                    Err(_) => {
                        lemma_content_line_local(x, y1);
                        lemma_content_line_local(x, y2);
                        lemma_content_line_error_suffix(x);
                        match spec_content_line(x) {
                            Err(e) => {
                                lemma_same_place(e.rest, y1, y2);
                            },
                            Ok((p, rest)) => {
                                lemma_calendar_body_alike(rest, y1, y2, calendar_with(acc, p));
                            },
                        }
                    },
                }
            }
        }
    }
}

/// A calendar at the head of whole lines parses alike whether `y1` or `y2`
/// follows the lines.
pub proof fn lemma_calendar_alike(x: Seq<char>, y1: Seq<char>, y2: Seq<char>)
    requires
        x.len() > 0,
        ends_lines(x),
        all_skip(y1, y2),
    ensures
        alike(spec_calendar(x + y1), spec_calendar(x + y2), y1, y2),
{
    lemma_literals();
    let name = "VCALENDAR"@;
    lemma_marker_local(x, y1, "BEGIN:"@, name);
    lemma_marker_local(x, y2, "BEGIN:"@, name);
    lemma_marker_error_suffix(x, "BEGIN:"@, name);
    match spec_begin(x, name) {
        Ok(rest) => {
            lemma_calendar_body_alike(rest, y1, y2, CalendarModel::empty());
        },
        Err(e) => {
            lemma_same_place(e.rest, y1, y2);
        },
    }
}

/// Whether no block keeps a property named `name`.
pub open spec fn is_unknown_name(name: Seq<char>) -> bool {
    &&& spec_alarm_field(name) is None
    &&& spec_event_field(name) is None
    &&& spec_calendar_field(name) is None
    &&& name != "TZID"@
}

/// Whether `l` is one whole content line: it ends with its line feed, is a
/// content line from its head to that end, and is no `BEGIN:` or `END:`
/// line.
pub open spec fn is_whole_line(l: Seq<char>) -> bool {
    &&& l.len() > 0
    &&& ends_lines(l)
    &&& !starts_with(l, "BEGIN:"@)
    &&& !starts_with(l, "END:"@)
    &&& spec_content_line(l) matches Ok((_, rest)) && rest.len() == 0
}

/// Whether `l` is one whole content line that no block keeps.
pub open spec fn is_unknown_line(l: Seq<char>) -> bool {
    &&& is_whole_line(l)
    &&& spec_content_line(l) matches Ok((p, _)) && is_unknown_name(p.name)
}

/// Every block skips an unknown line at the head of what is left of it.
pub proof fn lemma_unknown_line_skipped(l: Seq<char>, b: Seq<char>)
    requires
        is_unknown_line(l),
    ensures
        all_skip(l + b, b),
{
    lemma_literals();
    let s = l + b;
    lemma_content_line_local(l, b);
    lemma_content_line_consumes(s);
    lemma_starts_with_local(l, b, "BEGIN:"@);
    lemma_starts_with_local(l, b, "END:"@);
    lemma_starts_with_local(l, b, "END:VTIMEZONE"@);
    let (p, rest) = spec_content_line(l)->Ok_0;
    assert(rest + b =~= b);
    assert(spec_content_line(s) == Ok::<_, ErrorModel>((p, b)));
    reveal_strlit("END:");
    reveal_strlit("END:VTIMEZONE");
    if starts_with(l, "END:VTIMEZONE"@) {
        assert(l.take(4) =~= l.take(13).take(4));
        assert("END:VTIMEZONE"@.take(4) =~= "END:"@);
    }
    assert(spec_alarm(s) is Err);
    assert(spec_event(s) is Err);
    assert(spec_timezone(s) is Err);
    assert forall|acc: AlarmModel| #[trigger]
        spec_alarm_body(s, acc) == spec_alarm_body(b, acc) by {
        assert(alarm_with(acc, p) == acc);
    }
    assert forall|acc: EventModel| #[trigger]
        spec_event_body(s, acc) == spec_event_body(b, acc) by {
        assert(event_with(acc, p) == acc);
    }
    assert forall|depth: int, acc: TimezoneModel| #[trigger]
        spec_timezone_body(s, depth, acc) == spec_timezone_body(b, depth, acc) by {
        assert(timezone_with(acc, p, depth) == acc);
    }
    assert forall|acc: CalendarModel| #[trigger]
        spec_calendar_body(s, acc) == spec_calendar_body(b, acc) by {
        assert(calendar_with(acc, p) == acc);
    }
}

/// An unknown line can be taken out of an alarm: with the whole lines `a`
/// before it and `b` behind it, the text parses to the same alarm, or fails
/// in the same way at the same place, with the line and without it.
pub proof fn lemma_alarm_without_unknown_line(a: Seq<char>, l: Seq<char>, b: Seq<char>)
    requires
        a.len() > 0,
        ends_lines(a),
        is_unknown_line(l),
    ensures
        alike(spec_alarm(a + l + b), spec_alarm(a + b), l + b, b),
{
    lemma_unknown_line_skipped(l, b);
    assert(a + l + b =~= a + (l + b));
    lemma_alarm_alike(a, l + b, b);
}

/// An unknown line can be taken out of an event, wherever in the event or
/// in one of its alarms it stands: with the whole lines `a` before it and
/// `b` behind it, the text parses to the same event, or fails in the same
/// way at the same place, with the line and without it.
pub proof fn lemma_event_without_unknown_line(a: Seq<char>, l: Seq<char>, b: Seq<char>)
    requires
        a.len() > 0,
        ends_lines(a),
        is_unknown_line(l),
    ensures
        alike(spec_event(a + l + b), spec_event(a + b), l + b, b),
{
    lemma_unknown_line_skipped(l, b);
    assert(a + l + b =~= a + (l + b));
    lemma_event_alike(a, l + b, b);
}

/// An unknown line can be taken out of a timezone, at whatever depth it
/// stands: with the whole lines `a` before it and `b` behind it, the text
/// parses to the same timezone, or fails in the same way at the same place,
/// with the line and without it.
pub proof fn lemma_timezone_without_unknown_line(a: Seq<char>, l: Seq<char>, b: Seq<char>)
    requires
        a.len() > 0,
        ends_lines(a),
        is_unknown_line(l),
    ensures
        alike(spec_timezone(a + l + b), spec_timezone(a + b), l + b, b),
{
    lemma_unknown_line_skipped(l, b);
    assert(a + l + b =~= a + (l + b));
    lemma_timezone_alike(a, l + b, b);
}

/// An unknown line can be taken out of a document, in whatever block it
/// stands: with the whole lines `a` before it and `b` behind it, the
/// document parses to the same calendar, or fails in the same way at the
/// same place, with the line and without it.
pub proof fn lemma_calendar_without_unknown_line(a: Seq<char>, l: Seq<char>, b: Seq<char>)
    requires
        a.len() > 0,
        ends_lines(a),
        is_unknown_line(l),
    ensures
        alike(spec_calendar(a + l + b), spec_calendar(a + b), l + b, b),
{
    lemma_unknown_line_skipped(l, b);
    assert(a + l + b =~= a + (l + b));
    lemma_calendar_alike(a, l + b, b);
}

/// The depth at which what follows the whole lines `x` stands in a
/// timezone, where `x` begins at `depth`: each `BEGIN:` line in `x` opens a
/// block and each `END:` line closes one.
pub open spec fn depth_behind(x: Seq<char>, depth: int) -> int
    decreases x.len(),
    via depth_behind_decreases
{
    if x.len() == 0 {
        depth
    } else if starts_with(x, "BEGIN:"@) {
        match spec_line_text(x) {
            Some((_, rest)) => depth_behind(rest, depth + 1),
            None => depth,
        }
    } else if starts_with(x, "END:VTIMEZONE"@) {
        depth
    } else if starts_with(x, "END:"@) {
        match spec_line_text(x) {
            Some((_, rest)) => depth_behind(rest, depth - 1),
            None => depth,
        }
    } else {
        match spec_content_line(x) {
            Ok((_, rest)) => depth_behind(rest, depth),
            Err(_) => depth,
        }
    }
}

#[via_fn]
proof fn depth_behind_decreases(x: Seq<char>, depth: int) {
    lemma_content_line_consumes(x);
    if starts_with(x, "BEGIN:"@) || starts_with(x, "END:"@) {
        lemma_marker_line_consumes(x);
    }
}

/// Whether what is left of a timezone at `depth` parses from `y1` as from
/// `y2`.
pub open spec fn timezone_skips_at(y1: Seq<char>, y2: Seq<char>, depth: int) -> bool {
    forall|acc: TimezoneModel| #[trigger]
        spec_timezone_body(y1, depth, acc) == spec_timezone_body(y2, depth, acc)
}

/// What is left of a timezone, from whole lines on, parses alike whether
/// `y1` or `y2` follows the lines, where the timezone parses from `y1` as
/// from `y2` at the depth at which they stand.
pub proof fn lemma_timezone_body_alike_at(
    x: Seq<char>,
    y1: Seq<char>,
    y2: Seq<char>,
    depth: int,
    acc: TimezoneModel,
)
    requires
        ends_lines(x),
        timezone_skips_at(y1, y2, depth_behind(x, depth)),
    ensures
        alike(
            spec_timezone_body(x + y1, depth, acc),
            spec_timezone_body(x + y2, depth, acc),
            y1,
            y2,
        ),
    decreases x.len(),
{
    if x.len() == 0 {
        assert(x + y1 =~= y1);
        assert(x + y2 =~= y2);
    } else {
        lemma_literals();
        let name = "VTIMEZONE"@;
        lemma_starts_with_local(x, y1, "BEGIN:"@);
        lemma_starts_with_local(x, y2, "BEGIN:"@);
        lemma_starts_with_local(x, y1, "END:VTIMEZONE"@);
        lemma_starts_with_local(x, y2, "END:VTIMEZONE"@);
        lemma_starts_with_local(x, y1, "END:"@);
        lemma_starts_with_local(x, y2, "END:"@);
        lemma_line_text_local(x, y1);
        lemma_line_text_local(x, y2);
        lemma_marker_local(x, y1, "END:"@, name);
        lemma_marker_local(x, y2, "END:"@, name);
        lemma_marker_error_suffix(x, "END:"@, name);
        lemma_content_line_local(x, y1);
        lemma_content_line_local(x, y2);
        lemma_content_line_error_suffix(x);
        assert(x.skip(0) =~= x);
        if starts_with(x, "BEGIN:"@) {
            match spec_line_text(x) {
                None => {
                    lemma_same_place(x, y1, y2);
                },
                Some((_, rest)) => {
                    lemma_timezone_body_alike_at(rest, y1, y2, depth + 1, acc);
                },
            }
        } else if starts_with(x, "END:VTIMEZONE"@) {
            match spec_end(x, name) {
                Ok(rest) => {
                    lemma_same_place(rest, y1, y2);
                },
                Err(e) => {
                    lemma_same_place(e.rest, y1, y2);
                },
            }
        } else if starts_with(x, "END:"@) {
            match spec_line_text(x) {
                None => {
                    lemma_same_place(x, y1, y2);
                },
                Some((_, rest)) => {
                    lemma_timezone_body_alike_at(rest, y1, y2, depth - 1, acc);
                },
            }
        } else {
            match spec_content_line(x) {
                Err(e) => {
                    lemma_same_place(e.rest, y1, y2);
                },
                Ok((p, rest)) => {
                    lemma_timezone_body_alike_at(
                        rest,
                        y1,
                        y2,
                        depth,
                        timezone_with(acc, p, depth),
                    );
                },
            }
        }
    }
}

/// A timezone skips a whole content line, of whatever name, at the head of
/// what is left of it at a depth other than 1.
pub proof fn lemma_nested_line_skipped(l: Seq<char>, b: Seq<char>, depth: int)
    requires
        is_whole_line(l),
        depth != 1,
    ensures
        timezone_skips_at(l + b, b, depth),
{
    lemma_literals();
    let s = l + b;
    lemma_content_line_local(l, b);
    lemma_content_line_consumes(s);
    lemma_starts_with_local(l, b, "BEGIN:"@);
    lemma_starts_with_local(l, b, "END:"@);
    lemma_starts_with_local(l, b, "END:VTIMEZONE"@);
    let (p, rest) = spec_content_line(l)->Ok_0;
    assert(rest + b =~= b);
    assert(spec_content_line(s) == Ok::<_, ErrorModel>((p, b)));
    reveal_strlit("END:");
    reveal_strlit("END:VTIMEZONE");
    if starts_with(l, "END:VTIMEZONE"@) {
        assert(l.take(4) =~= l.take(13).take(4));
        assert("END:VTIMEZONE"@.take(4) =~= "END:"@);
    }
    assert forall|acc: TimezoneModel| #[trigger]
        spec_timezone_body(s, depth, acc) == spec_timezone_body(b, depth, acc) by {
        assert(timezone_with(acc, p, depth) == acc);
    }
}

/// A timezone takes nothing from inside its nested blocks: a content line
/// of whatever name, `TZID` too, that stands at a depth other than 1 can be
/// taken out, and the text parses to the same timezone, or fails in the
/// same way at the same place, with the line and without it. Here `a` is
/// the text before the line, from the block's `BEGIN:VTIMEZONE` on, and `b`
/// the text behind it.
pub proof fn lemma_timezone_without_nested_line(a: Seq<char>, l: Seq<char>, b: Seq<char>)
    requires
        ends_lines(a),
        is_whole_line(l),
        spec_begin(a, "VTIMEZONE"@) matches Ok(body) && depth_behind(body, 1) != 1,
    ensures
        alike(spec_timezone(a + l + b), spec_timezone(a + b), l + b, b),
{
    lemma_literals();
    let name = "VTIMEZONE"@;
    let body = spec_begin(a, name)->Ok_0;
    let s = l + b;
    assert(a + l + b =~= a + s);
    assert(a.len() > 0) by {
        reveal_strlit("BEGIN:");
    }
    lemma_marker_local(a, s, "BEGIN:"@, name);
    lemma_marker_local(a, b, "BEGIN:"@, name);
    lemma_nested_line_skipped(l, b, depth_behind(body, 1));
    lemma_timezone_body_alike_at(body, s, b, 1, TimezoneModel::empty());
}

} // verus!
