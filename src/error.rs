use vstd::prelude::*;

use crate::grammar::Fault;
use crate::text::push_char;

verus! {

/// `std::io::Error`, carried as it is in `Error::Local`; nothing is read from it.
#[verifier::external_type_specification]
#[verifier::external_body]
pub struct ExIoError(std::io::Error);

/// Everything that can go wrong between a command line and a finished process.
#[derive(Debug)]
pub enum Error {
    EmptyProgram,
    MissingQuote(String, char),
    InvalidEscapeSequence(String, char),
    UnterminatedEscapeSequence(String),
    Terminated,
    Local(std::io::Error),
}

impl Error {
    /// This error is the one that `f` calls for on command line `s`, and
    /// carries `s` where it carries a source.
    pub open spec fn reports(&self, s: Seq<char>, f: Fault) -> bool {
        match (*self, f) {
            (Error::EmptyProgram, Fault::EmptyProgram) => true,
            (Error::MissingQuote(src, q), Fault::MissingQuote(g)) => src@ == s && q == g,
            (Error::InvalidEscapeSequence(src, c), Fault::InvalidEscape(g)) => src@ == s && c == g,
            (Error::UnterminatedEscapeSequence(src), Fault::UnterminatedEscape) => src@ == s,
            _ => false,
        }
    }

    /// The text that describes this error to a person.
    pub open spec fn text(&self) -> Seq<char> {
        match self {
            Error::EmptyProgram => "empty program"@,
            Error::MissingQuote(src, q) => "missing quote "@ + seq![*q] + ": "@ + src@,
            Error::InvalidEscapeSequence(src, c) => "invalid escape sequence '\\"@ + seq![*c] + "': "@
                + src@,
            Error::UnterminatedEscapeSequence(src) => "unterminated escape sequence: "@ + src@,
            Error::Terminated => "process was terminated by a signal"@,
            Error::Local(_) => "local command failure"@,
        }
    }

    /// Describes this error; each message that carries a source ends with it.
    pub fn message(&self) -> (r: String)
        ensures
            r@ == self.text(),
    {
        match self {
            Error::EmptyProgram => String::from_str("empty program"),
            Error::MissingQuote(src, q) => {
                let mut r = String::from_str("missing quote ");
                push_char(&mut r, *q);
                r.append(": ");
                r.append(src.as_str());
                r
            },
            Error::InvalidEscapeSequence(src, c) => {
                let mut r = String::from_str("invalid escape sequence '\\");
                push_char(&mut r, *c);
                r.append("': ");
                r.append(src.as_str());
                r
            },
            Error::UnterminatedEscapeSequence(src) => {
                let mut r = String::from_str("unterminated escape sequence: ");
                r.append(src.as_str());
                r
            },
            Error::Terminated => String::from_str("process was terminated by a signal"),
            Error::Local(_) => String::from_str("local command failure"),
        }
    }

    /// The operating-system failure underneath, if there is one.
    pub fn source(&self) -> (r: Option<&std::io::Error>)
        ensures
            r is Some <==> self is Local,
            self is Local ==> r == Some(&self->Local_0),
    {
        match self {
            Error::Local(e) => Some(e),
            _ => None,
        }
    }
}

} // verus!
