//! The failure value of the parsers.

use vstd::prelude::*;
use vstd::string::*;
use vstd::utf8::encode_utf8;

verus! {

/// What could not be done at the place where a parse stopped.
#[derive(Debug, Clone, Copy, PartialEq, Eq, Structural)]
pub enum ErrorKind {
    /// The text does not continue with the `BEGIN:<NAME>` or `END:<NAME>`
    /// marker that was asked for.
    ExpectedMarker,
    /// A line does not have the shape `NAME[;PARAM=VALUE]*:VALUE`.
    MalformedLine,
    /// The text ended inside a block, before its `END:<NAME>` marker.
    UnterminatedBlock,
}

/// A failed parse: its kind, and the text from the place where the parse
/// could not go on to the end of the input.
#[derive(Debug, Clone, Copy, PartialEq, Eq)]
pub struct ParseError<'a> {
    pub kind: ErrorKind,
    pub rest: &'a str,
}

/// A failed parse over sequences of characters.
pub struct ErrorModel {
    pub kind: ErrorKind,
    pub rest: Seq<char>,
}

impl<'a> View for ParseError<'a> {
    type V = ErrorModel;

    open spec fn view(&self) -> ErrorModel {
        ErrorModel { kind: self.kind, rest: self.rest@ }
    }
}

impl<'a> ParseError<'a> {
    /// The number of bytes of `input` in front of the place where the parse
    /// stopped, for a failure of a parse of `input`; the length of `input`
    /// where the failure is none of `input`.
    pub fn offset(&self, input: &str) -> (o: usize)
        ensures
            o == if encode_utf8(self.rest@).len() <= encode_utf8(input@).len() {
                encode_utf8(input@).len() - encode_utf8(self.rest@).len()
            } else {
                encode_utf8(input@).len() as int
            },
    {
        let n = input.as_bytes().len();
        let m = self.rest.as_bytes().len();
        if m <= n {
            n - m
        } else {
            n
        }
    }
}

} // verus!
