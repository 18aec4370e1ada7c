use nom::bytes::complete::{tag, take_while1};
use nom::character::complete::{char, line_ending, not_line_ending};
use nom::combinator::opt;
use nom::multi::many0;
use nom::sequence::{preceded, separated_pair};
use nom::{IResult, Parser};
use vcal_parser::line::{begin_component, content_line, end_component};

type Line<'a> = (&'a str, Vec<(&'a str, &'a str)>, &'a str);

fn is_name_char(c: char) -> bool {
    c.is_alphanumeric() || c == '-'
}

fn is_param_value_char(c: char) -> bool {
    c != ':' && c != ';' && c != '\r' && c != '\n'
}

fn combinator_parameter(input: &str) -> IResult<&str, (&str, &str)> {
    separated_pair(take_while1(is_name_char), char('='), take_while1(is_param_value_char))
        .parse(input)
}

fn combinator_line(input: &str) -> IResult<&str, Line<'_>> {
    let (input, name) = take_while1(is_name_char).parse(input)?;
    let (input, params) = many0(preceded(char(';'), combinator_parameter)).parse(input)?;
    let (input, _) = char(':').parse(input)?;
    let (input, value) = not_line_ending.parse(input)?;
    let (input, _) = opt(line_ending).parse(input)?;
    Ok((input, (name, params, value)))
}

fn combinator_marker<'a>(input: &'a str, word: &str, name: &str) -> IResult<&'a str, ()> {
    let (input, _) = tag(word).parse(input)?;
    let (input, _) = tag(name).parse(input)?;
    let (input, _) = opt(line_ending).parse(input)?;
    Ok((input, ()))
}

fn failed_at<'a, T>(r: IResult<&'a str, T>) -> Result<(&'a str, T), &'a str> {
    match r {
        Ok(v) => Ok(v),
        Err(nom::Err::Error(e)) | Err(nom::Err::Failure(e)) => Err(e.input),
        Err(nom::Err::Incomplete(_)) => unreachable!(),
    }
}

fn texts(alphabet: &[&str], max_len: usize) -> Vec<String> {
    let mut all = vec![String::new()];
    let mut last = vec![String::new()];
    for _ in 0..max_len {
        let mut next = Vec::new();
        for t in &last {
            for piece in alphabet {
                next.push(format!("{}{}", t, piece));
            }
        }
        all.extend(next.iter().cloned());
        last = next;
    }
    all
}

fn check_line(text: &str) {
    let ours = content_line(text)
        .map(|(rest, p)| (rest, (p.name, p.params, p.value)))
        .map_err(|e| e.rest);
    let theirs = failed_at(combinator_line(text));
    assert_eq!(ours, theirs, "on {:?}", text);
}

#[test]
fn content_line_agrees_with_combinators_on_short_texts() {
    let alphabet = ["A", "-", ";", "=", ":", "\r", "\n", " ", "ő"];
    for text in texts(&alphabet, 5) {
        check_line(&text);
    }
}

#[test]
fn content_line_agrees_with_combinators_on_parameter_shapes() {
    let pieces = ["N", ";P=v", ";P=", ";=v", ";P", ":", "val", "\r\n", "\n", "\r", ";"];
    for text in texts(&pieces, 4) {
        check_line(&text);
    }
}

#[test]
fn markers_agree_with_combinators() {
    let pieces = ["BEGIN:", "END:", "VEVENT", "VEV", "\r\n", "\n", "\r", "X", ""];
    for text in texts(&pieces, 4) {
        for name in ["VEVENT", "VEV", ""] {
            let ours = begin_component(&text, name).map(|rest| (rest, ())).map_err(|e| e.rest);
            assert_eq!(ours, failed_at(combinator_marker(&text, "BEGIN:", name)), "on {:?}", text);
            let ours = end_component(&text, name).map(|rest| (rest, ())).map_err(|e| e.rest);
            assert_eq!(ours, failed_at(combinator_marker(&text, "END:", name)), "on {:?}", text);
        }
    }
}
