//! The content-line grammar, `NAME[;PARAM=VALUE]*:VALUE`, and the
//! `BEGIN:<NAME>` and `END:<NAME>` markers.

use vstd::prelude::*;
use vstd::string::*;
use crate::error::{ErrorKind, ErrorModel, ParseError};
use crate::text::{
    class_has, first_char, is_suffix_of, lemma_run_len, rest_after_first, run_len, take_run,
    CharClass,
};

verus! {

/// Whether `s` begins with `lit`.
pub open spec fn starts_with(s: Seq<char>, lit: Seq<char>) -> bool {
    lit.len() <= s.len() && s.take(lit.len() as int) == lit
}

/// The length of the line ending at the head of `s`: 1 for a line feed, 2 for
/// a carriage return with a line feed, 0 where there is neither.
pub open spec fn line_ending_len(s: Seq<char>) -> nat {
    if s.len() >= 1 && s[0] == '\n' {
        1
    } else if s.len() >= 2 && s[0] == '\r' && s[1] == '\n' {
        2
    } else {
        0
    }
}

/// `s` without the line ending at its head, if there is one.
pub open spec fn skip_line_ending(s: Seq<char>) -> Seq<char> {
    s.skip(line_ending_len(s) as int)
}

/// `s` without `lit` at its head, where it begins with `lit`.
pub fn strip_prefix<'a>(s: &'a str, lit: &str) -> (r: Option<&'a str>)
    ensures
        match r {
            Some(rest) => starts_with(s@, lit@) && rest@ == s@.skip(lit@.len() as int),
            None => !starts_with(s@, lit@),
        },
{
    let mut cur = s;
    let mut pat = lit;
    assert(s@ =~= s@.skip(0));
    assert(lit@ =~= lit@.skip(0));
    loop
        invariant
            is_suffix_of(cur@, s@),
            is_suffix_of(pat@, lit@),
            s@.len() - cur@.len() == lit@.len() - pat@.len(),
            s@.take(s@.len() - cur@.len()) == lit@.take(lit@.len() - pat@.len()),
        decreases pat@.len(),
    {
        let ghost k = lit@.len() - pat@.len();
        match first_char(pat) {
            None => {
                proof {
                    assert(lit@.take(k) =~= lit@);
                }
                return Some(cur);
            },
            Some(p) => {
                match first_char(cur) {
                    None => {
                        return None;
                    },
                    Some(c) => {
                        if c != p {
                            proof {
                                if starts_with(s@, lit@) {
                                    assert(s@.take(lit@.len() as int)[k] == lit@[k]);
                                }
                            }
                            return None;
                        }
                        let next = rest_after_first(cur);
                        let next_pat = rest_after_first(pat);
                        proof {
                            assert(next@ =~= s@.skip(s@.len() - next@.len()));
                            assert(next_pat@ =~= lit@.skip(lit@.len() - next_pat@.len()));
                            assert(s@.take(k + 1) =~= s@.take(k).push(c));
                            assert(lit@.take(k + 1) =~= lit@.take(k).push(p));
                        }
                        cur = next;
                        pat = next_pat;
                    },
                }
            },
        }
    }
}

/// Whether `a` and `b` hold the same characters.
pub fn str_eq(a: &str, b: &str) -> (r: bool)
    ensures
        r == (a@ == b@),
{
    match strip_prefix(a, b) {
        Some(rest) => {
            let done = first_char(rest).is_none();
            proof {
                if done {
                    assert(a@ =~= a@.take(b@.len() as int));
                }
            }
            done
        },
        None => {
            proof {
                if a@ == b@ {
                    assert(a@.take(b@.len() as int) =~= b@);
                }
            }
            false
        },
    }
}

/// `s` without the line ending at its head, if there is one.
pub fn strip_line_ending<'a>(s: &'a str) -> (r: &'a str)
    ensures
        r@ == skip_line_ending(s@),
{
    match first_char(s) {
        Some('\n') => rest_after_first(s),
        Some('\r') => {
            let after = rest_after_first(s);
            match first_char(after) {
                Some('\n') => {
                    let r = rest_after_first(after);
                    assert(r@ =~= s@.skip(2));
                    r
                },
                _ => {
                    assert(s@ =~= s@.skip(0));
                    s
                },
            }
        },
        _ => {
            assert(s@ =~= s@.skip(0));
            s
        },
    }
}

/// The text of the line at the head of `s`, up to its ending, and what
/// follows the ending. There is none where the text stops at a carriage
/// return that no line feed follows.
pub open spec fn spec_line_text(s: Seq<char>) -> Option<(Seq<char>, Seq<char>)> {
    let v = run_len(s, CharClass::LineText) as int;
    let tail = s.skip(v);
    if tail.len() > 0 && tail[0] == '\r' && line_ending_len(tail) == 0 {
        None
    } else {
        Some((s.take(v), skip_line_ending(tail)))
    }
}

/// Splits `s` into the text of its first line and what follows the line's
/// ending.
pub fn take_line<'a>(s: &'a str) -> (r: Option<(&'a str, &'a str)>)
    ensures
        match r {
            Some((text, rest)) => spec_line_text(s@) == Some((text@, rest@)),
            None => spec_line_text(s@) is None,
        },
{
    let (text, tail) = take_run(s, CharClass::LineText);
    let rest = strip_line_ending(tail);
    match first_char(tail) {
        Some('\r') => {
            match first_char(rest_after_first(tail)) {
                Some('\n') => Some((text, rest)),
                _ => None,
            }
        },
        _ => Some((text, rest)),
    }
}

/// A content line: its name, its parameters in the order in which they
/// stand, and its value.
#[derive(Debug, Clone, PartialEq)]
pub struct Property<'a> {
    pub name: &'a str,
    pub params: Vec<(&'a str, &'a str)>,
    pub value: &'a str,
}

/// A content line over sequences of characters.
pub struct PropertyModel {
    pub name: Seq<char>,
    pub params: Seq<(Seq<char>, Seq<char>)>,
    pub value: Seq<char>,
}

/// The parameters `v` as pairs of character sequences.
pub open spec fn params_view<'a>(v: Seq<(&'a str, &'a str)>) -> Seq<(Seq<char>, Seq<char>)> {
    Seq::new(v.len(), |i: int| (v[i].0@, v[i].1@))
}

impl<'a> View for Property<'a> {
    type V = PropertyModel;

    open spec fn view(&self) -> PropertyModel {
        PropertyModel {
            name: self.name@,
            params: params_view(self.params@),
            value: self.value@,
        }
    }
}

/// A failure of kind `MalformedLine` at `rest`.
pub open spec fn malformed(rest: Seq<char>) -> ErrorModel {
    ErrorModel { kind: ErrorKind::MalformedLine, rest }
}

/// One parameter, `;NAME=VALUE`, at the head of `s`, and what follows it.
pub open spec fn spec_parameter(s: Seq<char>) -> Option<((Seq<char>, Seq<char>), Seq<char>)> {
    if s.len() == 0 || s[0] != ';' {
        None
    } else {
        let a = s.skip(1);
        let n = run_len(a, CharClass::Name) as int;
        let b = a.skip(n);
        if n == 0 || b.len() == 0 || b[0] != '=' {
            None
        } else {
            let c = b.skip(1);
            let v = run_len(c, CharClass::ParamValue) as int;
            if v == 0 {
                None
            } else {
                Some(((a.take(n), c.take(v)), c.skip(v)))
            }
        }
    }
}

/// A parameter takes at least four characters.
pub proof fn lemma_parameter_consumes(s: Seq<char>)
    ensures
        spec_parameter(s) matches Some((_, rest)) ==> is_suffix_of(rest, s) && rest.len() + 4
            <= s.len(),
{
    if spec_parameter(s) is Some {
        let a = s.skip(1);
        let n = run_len(a, CharClass::Name) as int;
        let b = a.skip(n);
        let c = b.skip(1);
        let v = run_len(c, CharClass::ParamValue) as int;
        lemma_run_len(a, CharClass::Name);
        lemma_run_len(c, CharClass::ParamValue);
        assert(c.skip(v) =~= s.skip(s.len() - c.skip(v).len()));
    }
}

/// The parameters at the head of `s`, as many as there are, and what follows
/// the last of them.
pub open spec fn spec_parameters(s: Seq<char>) -> (Seq<(Seq<char>, Seq<char>)>, Seq<char>)
    decreases s.len(),
    via spec_parameters_decreases
{
    match spec_parameter(s) {
        Some((p, rest)) => {
            let (ps, after) = spec_parameters(rest);
            (seq![p] + ps, after)
        },
        None => (Seq::empty(), s),
    }
}

#[via_fn]
proof fn spec_parameters_decreases(s: Seq<char>) {
    lemma_parameter_consumes(s);
}

/// The content line at the head of `s` and what follows its line ending, or
/// the place where the line stops having the shape of one: at its head where
/// it has no name, behind its parameters where no `:` stands there, and at the
/// head of its value where that stops at a carriage return that no line feed
/// follows.
pub open spec fn spec_content_line(s: Seq<char>) -> Result<(PropertyModel, Seq<char>), ErrorModel> {
    let n = run_len(s, CharClass::Name) as int;
    let (params, after) = spec_parameters(s.skip(n));
    if n == 0 {
        Err(malformed(s))
    } else if after.len() == 0 || after[0] != ':' {
        Err(malformed(after))
    } else {
        match spec_line_text(after.skip(1)) {
            None => Err(malformed(after.skip(1))),
            Some((value, rest)) => Ok((PropertyModel { name: s.take(n), params, value }, rest)),
        }
    }
}

/// One parameter, `;NAME=VALUE`, at the head of `s`.
pub fn parameter<'a>(s: &'a str) -> (r: Option<((&'a str, &'a str), &'a str)>)
    ensures
        match r {
            Some((p, rest)) => spec_parameter(s@) == Some(((p.0@, p.1@), rest@)),
            None => spec_parameter(s@) is None,
        },
{
    match first_char(s) {
        Some(';') => {},
        _ => {
            return None;
        },
    }
    let a = rest_after_first(s);
    let (name, b) = take_run(a, CharClass::Name);
    proof {
        lemma_run_len(a@, CharClass::Name);
    }
    if first_char(name).is_none() {
        return None;
    }
    match first_char(b) {
        Some('=') => {},
        _ => {
            return None;
        },
    }
    let c = rest_after_first(b);
    let (value, rest) = take_run(c, CharClass::ParamValue);
    proof {
        lemma_run_len(c@, CharClass::ParamValue);
    }
    if first_char(value).is_none() {
        return None;
    }
    Some(((name, value), rest))
}

/// The parameters at the head of `s`, as many as there are.
pub fn parameters<'a>(s: &'a str) -> (r: (Vec<(&'a str, &'a str)>, &'a str))
    ensures
        (params_view(r.0@), r.1@) == spec_parameters(s@),
{
    let mut acc: Vec<(&'a str, &'a str)> = Vec::new();
    let mut cur = s;
    loop
        invariant
            spec_parameters(s@) == (
                params_view(acc@) + spec_parameters(cur@).0,
                spec_parameters(cur@).1,
            ),
        ensures
            spec_parameters(s@) == (params_view(acc@), cur@),
        decreases cur@.len(),
    {
        match parameter(cur) {
            Some((p, rest)) => {
                proof {
                    lemma_parameter_consumes(cur@);
                    let ghost before = params_view(acc@);
                    assert(params_view(acc@.push(p)) =~= before + seq![(p.0@, p.1@)]);
                    assert(before + (seq![(p.0@, p.1@)] + spec_parameters(rest@).0) =~= before
                        + seq![(p.0@, p.1@)] + spec_parameters(rest@).0);
                }
                acc.push(p);
                cur = rest;
            },
            None => {
                proof {
                    assert(params_view(acc@) + Seq::empty() =~= params_view(acc@));
                }
                break;
            },
        }
    }
    (acc, cur)
}

/// Parses the content line at the head of `input`.
pub fn content_line<'a>(input: &'a str) -> (r: Result<(&'a str, Property<'a>), ParseError<'a>>)
    ensures
        match r {
            Ok((rest, prop)) => spec_content_line(input@) == Ok::<_, ErrorModel>((prop@, rest@)),
            Err(e) => spec_content_line(input@) == Err::<(PropertyModel, Seq<char>), _>(e@),
        },
{
    let (name, after_name) = take_run(input, CharClass::Name);
    proof {
        lemma_run_len(input@, CharClass::Name);
    }
    if first_char(name).is_none() {
        return Err(ParseError { kind: ErrorKind::MalformedLine, rest: input });
    }
    let (params, after) = parameters(after_name);
    match first_char(after) {
        Some(':') => {},
        _ => {
            return Err(ParseError { kind: ErrorKind::MalformedLine, rest: after });
        },
    }
    let text = rest_after_first(after);
    match take_line(text) {
        None => Err(ParseError { kind: ErrorKind::MalformedLine, rest: text }),
        Some((value, rest)) => Ok((rest, Property { name, params, value })),
    }
}

/// A failure of kind `ExpectedMarker` at `rest`.
pub open spec fn expected_marker(rest: Seq<char>) -> ErrorModel {
    ErrorModel { kind: ErrorKind::ExpectedMarker, rest }
}

/// A failure of kind `UnterminatedBlock` at `rest`.
pub open spec fn unterminated(rest: Seq<char>) -> ErrorModel {
    ErrorModel { kind: ErrorKind::UnterminatedBlock, rest }
}

/// What follows the marker made of `word` and `name`, with its line ending if
/// it has one, where `s` begins with that marker; else the place where `s`
/// departs from it: its head where it does not begin with `word`, and behind
/// `word` where `name` does not follow.
pub open spec fn spec_marker(s: Seq<char>, word: Seq<char>, name: Seq<char>) -> Result<
    Seq<char>,
    ErrorModel,
> {
    let after_word = s.skip(word.len() as int);
    if !starts_with(s, word) {
        Err(expected_marker(s))
    } else if !starts_with(after_word, name) {
        Err(expected_marker(after_word))
    } else {
        Ok(skip_line_ending(after_word.skip(name.len() as int)))
    }
}

/// What follows `BEGIN:<name>` at the head of `s`.
pub open spec fn spec_begin(s: Seq<char>, name: Seq<char>) -> Result<Seq<char>, ErrorModel> {
    spec_marker(s, "BEGIN:"@, name)
}

/// What follows `END:<name>` at the head of `s`.
pub open spec fn spec_end(s: Seq<char>, name: Seq<char>) -> Result<Seq<char>, ErrorModel> {
    spec_marker(s, "END:"@, name)
}

/// What follows a marker is a suffix of the text, and a proper one unless
/// the marker is empty.
pub proof fn lemma_marker_consumes(s: Seq<char>, word: Seq<char>, name: Seq<char>)
    ensures
        spec_marker(s, word, name) matches Ok(rest) ==> is_suffix_of(rest, s) && rest.len()
            + word.len() + name.len() <= s.len(),
{
    if let Ok(rest) = spec_marker(s, word, name) {
        assert(rest =~= s.skip(s.len() - rest.len()));
    }
}

/// Matches the marker made of `word` and `name` at the head of `input`.
fn marker<'a>(input: &'a str, word: &str, name: &str) -> (r: Result<&'a str, ParseError<'a>>)
    ensures
        match r {
            Ok(rest) => spec_marker(input@, word@, name@) == Ok::<_, ErrorModel>(rest@),
            Err(e) => spec_marker(input@, word@, name@) == Err::<Seq<char>, _>(e@),
        },
{
    match strip_prefix(input, word) {
        None => Err(ParseError { kind: ErrorKind::ExpectedMarker, rest: input }),
        Some(after_word) => {
            match strip_prefix(after_word, name) {
                None => Err(ParseError { kind: ErrorKind::ExpectedMarker, rest: after_word }),
                Some(after_name) => Ok(strip_line_ending(after_name)),
            }
        },
    }
}

/// Matches `BEGIN:<name>` at the head of `input`, with its line ending if it
/// has one.
pub fn begin_component<'a>(input: &'a str, name: &str) -> (r: Result<&'a str, ParseError<'a>>)
    ensures
        match r {
            Ok(rest) => spec_begin(input@, name@) == Ok::<_, ErrorModel>(rest@),
            Err(e) => spec_begin(input@, name@) == Err::<Seq<char>, _>(e@),
        },
{
    marker(input, "BEGIN:", name)
}

/// Matches `END:<name>` at the head of `input`, with its line ending if it
/// has one.
pub fn end_component<'a>(input: &'a str, name: &str) -> (r: Result<&'a str, ParseError<'a>>)
    ensures
        match r {
            Ok(rest) => spec_end(input@, name@) == Ok::<_, ErrorModel>(rest@),
            Err(e) => spec_end(input@, name@) == Err::<Seq<char>, _>(e@),
        },
{
    marker(input, "END:", name)
}

/// A content line is never empty, and what follows it is a proper suffix of
/// the text.
pub proof fn lemma_content_line_consumes(s: Seq<char>)
    ensures
        spec_content_line(s) matches Ok((_, rest)) ==> is_suffix_of(rest, s) && rest.len() + 2
            <= s.len(),
{
    if let Ok((_, rest)) = spec_content_line(s) {
        let n = run_len(s, CharClass::Name) as int;
        lemma_run_len(s, CharClass::Name);
        lemma_parameters_suffix(s.skip(n));
        let after = spec_parameters(s.skip(n)).1;
        lemma_line_text_suffix(after.skip(1));
        assert(rest =~= s.skip(s.len() - rest.len()));
    }
}

/// What follows the parameters is a suffix of the text.
pub proof fn lemma_parameters_suffix(s: Seq<char>)
    ensures
        is_suffix_of(spec_parameters(s).1, s),
    decreases s.len(),
{
    match spec_parameter(s) {
        Some((_, rest)) => {
            lemma_parameter_consumes(s);
            lemma_parameters_suffix(rest);
            let after = spec_parameters(rest).1;
            assert(after =~= s.skip(s.len() - after.len()));
        },
        None => {
            assert(s =~= s.skip(0));
        },
    }
}

/// What follows a line is a suffix of the text, and a proper one where the
/// text begins with a character that is no line break.
pub proof fn lemma_line_text_suffix(s: Seq<char>)
    ensures
        spec_line_text(s) matches Some((text, rest)) ==> is_suffix_of(rest, s) && rest.len()
            + text.len() <= s.len() && text.len() == run_len(s, CharClass::LineText),
{
    if let Some((text, rest)) = spec_line_text(s) {
        lemma_run_len(s, CharClass::LineText);
        assert(rest =~= s.skip(s.len() - rest.len()));
    }
}

} // verus!
