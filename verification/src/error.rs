//! The errors that parsing and evaluating conditions can give, and their
//! messages.
use vstd::prelude::*;

use crate::text::{push_str, string_from_str};

verus! {

broadcast use vstd::string::group_string_axioms;

/// Why a string of digits could not be read as a number. Only numbers too
/// large for their type can occur, as the parser only hands over non-empty
/// runs of digits.
#[derive(Clone, Copy, Debug, PartialEq, Eq, Structural)]
pub enum IntErrorKind {
    PosOverflow,
}

impl IntErrorKind {
    /// The message that `ParseIntError` displays for this kind.
    pub open spec fn spec_message(self) -> Seq<char> {
        "number too large to fit in target type"@
    }

    pub fn to_string(&self) -> (r: String)
        ensures
            r@ == self.spec_message(),
    {
        string_from_str("number too large to fit in target type")
    }
}

/// What went wrong while parsing a condition string.
#[derive(Debug)]
pub enum ParsingErrorKind {
    InvalidRegexSyntax(String),
    InvalidRegexUnknown,
    InvalidCrc(IntErrorKind),
    PathEndsInADirectorySeparator(String),
    PathIsNotInGameDirectory(String),
    GenericParserError(String),
}

/// The mathematical value of a `ParsingErrorKind`.
pub enum KindView {
    InvalidRegexSyntax(Seq<char>),
    InvalidRegexUnknown,
    InvalidCrc(IntErrorKind),
    PathEndsInADirectorySeparator(Seq<char>),
    PathIsNotInGameDirectory(Seq<char>),
    GenericParserError(Seq<char>),
}

impl View for ParsingErrorKind {
    type V = KindView;

    open spec fn view(&self) -> KindView {
        match self {
            ParsingErrorKind::InvalidRegexSyntax(s) => KindView::InvalidRegexSyntax(s@),
            ParsingErrorKind::InvalidRegexUnknown => KindView::InvalidRegexUnknown,
            ParsingErrorKind::InvalidCrc(e) => KindView::InvalidCrc(*e),
            ParsingErrorKind::PathEndsInADirectorySeparator(p) => KindView::PathEndsInADirectorySeparator(p@),
            ParsingErrorKind::PathIsNotInGameDirectory(p) => KindView::PathIsNotInGameDirectory(p@),
            ParsingErrorKind::GenericParserError(s) => KindView::GenericParserError(s@),
        }
    }
}

/// The message displayed for an error kind.
pub open spec fn kind_message(k: KindView) -> Seq<char> {
    match k {
        KindView::InvalidRegexSyntax(s) => s,
        KindView::InvalidRegexUnknown => "Unknown regex parsing error"@,
        KindView::InvalidCrc(e) => e.spec_message(),
        KindView::PathEndsInADirectorySeparator(p) => "\""@ + p + "\" ends in a directory separator"@,
        KindView::PathIsNotInGameDirectory(p) => "\""@ + p + "\" is not in the game directory"@,
        KindView::GenericParserError(e) => "Error in parser: "@ + e,
    }
}

/// A parsing error kind together with the input at which it was found.
#[derive(Clone, Debug)]
pub struct ParsingError {
    input: String,
    kind: ParsingErrorKind,
}

impl Clone for ParsingErrorKind {
    fn clone(&self) -> (r: Self)
        ensures
            r@ == self@,
    {
        match self {
            ParsingErrorKind::InvalidRegexSyntax(s) => ParsingErrorKind::InvalidRegexSyntax(s.clone()),
            ParsingErrorKind::InvalidRegexUnknown => ParsingErrorKind::InvalidRegexUnknown,
            ParsingErrorKind::InvalidCrc(e) => ParsingErrorKind::InvalidCrc(*e),
            ParsingErrorKind::PathEndsInADirectorySeparator(p) => {
                ParsingErrorKind::PathEndsInADirectorySeparator(p.clone())
            },
            ParsingErrorKind::PathIsNotInGameDirectory(p) => {
                ParsingErrorKind::PathIsNotInGameDirectory(p.clone())
            },
            ParsingErrorKind::GenericParserError(s) => ParsingErrorKind::GenericParserError(s.clone()),
        }
    }
}

impl ParsingErrorKind {
    /// This error kind, found at `input`.
    pub fn at(self, input: &str) -> (r: ParsingError)
        ensures
            r.spec_input() == input@,
            r.spec_kind() == self@,
    {
        ParsingError { input: string_from_str(input), kind: self }
    }

    /// The message that this error kind displays.
    pub fn to_string(&self) -> (r: String)
        ensures
            r@ == kind_message(self@),
    {
        match self {
            ParsingErrorKind::InvalidRegexSyntax(s) => s.clone(),
            ParsingErrorKind::InvalidRegexUnknown => string_from_str("Unknown regex parsing error"),
            ParsingErrorKind::InvalidCrc(e) => e.to_string(),
            ParsingErrorKind::PathEndsInADirectorySeparator(p) => {
                let mut r = string_from_str("\"");
                push_str(&mut r, p.as_str());
                push_str(&mut r, "\" ends in a directory separator");
                r
            },
            ParsingErrorKind::PathIsNotInGameDirectory(p) => {
                let mut r = string_from_str("\"");
                push_str(&mut r, p.as_str());
                push_str(&mut r, "\" is not in the game directory");
                r
            },
            ParsingErrorKind::GenericParserError(e) => {
                let mut r = string_from_str("Error in parser: ");
                push_str(&mut r, e.as_str());
                r
            },
        }
    }
}

impl ParsingError {
    pub closed spec fn spec_input(&self) -> Seq<char> {
        self.input@
    }

    pub closed spec fn spec_kind(&self) -> KindView {
        self.kind@
    }

    /// The input at which the error was found.
    pub fn input(&self) -> (r: &str)
        ensures
            r@ == self.spec_input(),
    {
        self.input.as_str()
    }

    /// What went wrong.
    pub fn kind(&self) -> (r: &ParsingErrorKind)
        ensures
            r@ == self.spec_kind(),
    {
        &self.kind
    }

    /// The message that the error displays.
    pub fn to_string(&self) -> (r: String)
        ensures
            r@ == "An error was encountered while parsing the expression \""@ + self.spec_input()
                + "\": "@ + kind_message(self.spec_kind()),
    {
        let mut r = string_from_str("An error was encountered while parsing the expression \"");
        push_str(&mut r, self.input.as_str());
        push_str(&mut r, "\": ");
        let k = self.kind.to_string();
        push_str(&mut r, k.as_str());
        r
    }
}

/// The input with every double quote preceded by a backslash.
pub open spec fn escaped(s: Seq<char>) -> Seq<char>
    decreases s.len(),
{
    if s.len() == 0 {
        Seq::empty()
    } else {
        escaped(s.drop_last()) + if s.last() == '"' {
            seq!['\\', '"']
        } else {
            seq![s.last()]
        }
    }
}

/// Escapes the double quotes of `input` with backslashes.
pub fn escape(input: &str) -> (r: String)
    ensures
        r@ == escaped(input@),
{
    let chars = crate::text::chars_of(input);
    let mut r = String::new();
    let mut i: usize = 0;
    while i < chars.len()
        invariant
            i <= chars.len(),
            chars@ == input@,
            r@ == escaped(chars@.take(i as int)),
        decreases chars.len() - i,
    {
        let c = chars[i];
        if c == '"' {
            crate::text::push_char(&mut r, '\\');
        }
        crate::text::push_char(&mut r, c);
        proof {
            let t = chars@.take(i + 1);
            assert(t.drop_last() == chars@.take(i as int));
        }
        i = i + 1;
    }
    assert(chars@.take(chars.len() as int) == chars@);
    r
}

/// The errors of parsing and evaluating conditions.
#[derive(Debug)]
pub enum Error {
    ParsingIncomplete,
    /// The string is the input that was not parsed.
    UnconsumedInput(String),
    /// The string is the input at which the error was encountered.
    ParsingError(String, ParsingErrorKind),
    /// The path of an executable whose version fields could not be read, and
    /// why.
    PeParsingError(String, String),
    /// A path that could not be accessed, and the message of the I/O error.
    IoError(String, String),
}

/// The mathematical value of an `Error`.
pub enum ErrorView {
    ParsingIncomplete,
    UnconsumedInput(Seq<char>),
    ParsingError(Seq<char>, KindView),
    PeParsingError(Seq<char>, Seq<char>),
    IoError(Seq<char>, Seq<char>),
}

impl View for Error {
    type V = ErrorView;

    open spec fn view(&self) -> ErrorView {
        match self {
            Error::ParsingIncomplete => ErrorView::ParsingIncomplete,
            Error::UnconsumedInput(s) => ErrorView::UnconsumedInput(s@),
            Error::ParsingError(s, k) => ErrorView::ParsingError(s@, k@),
            Error::PeParsingError(p, e) => ErrorView::PeParsingError(p@, e@),
            Error::IoError(p, e) => ErrorView::IoError(p@, e@),
        }
    }
}

/// The message that an error displays.
pub open spec fn error_message(e: ErrorView) -> Seq<char> {
    match e {
        ErrorView::ParsingIncomplete => "More input was expected by the parser"@,
        ErrorView::UnconsumedInput(i) => "The parser did not consume the following input: \""@ + i
            + "\""@,
        ErrorView::ParsingError(i, k) => "An error was encountered while parsing the expression \""@
            + i + "\": "@ + kind_message(k),
        ErrorView::PeParsingError(p, e) =>
            "An error was encountered while reading the version fields of \""@ + p + "\": "@ + e,
        ErrorView::IoError(p, e) => "An error was encountered while accessing the path \""@ + p
            + "\": "@ + e,
    }
}

impl Clone for Error {
    fn clone(&self) -> (r: Self)
        ensures
            r@ == self@,
    {
        match self {
            Error::ParsingIncomplete => Error::ParsingIncomplete,
            Error::UnconsumedInput(s) => Error::UnconsumedInput(s.clone()),
            Error::ParsingError(s, k) => Error::ParsingError(s.clone(), k.clone()),
            Error::PeParsingError(p, e) => Error::PeParsingError(p.clone(), e.clone()),
            Error::IoError(p, e) => Error::IoError(p.clone(), e.clone()),
        }
    }
}

impl Error {
    /// The error that a failed parse gives: the input at which it failed,
    /// with its double quotes escaped, and what went wrong.
    pub fn from_parsing_error(e: ParsingError) -> (r: Error)
        ensures
            r@ == ErrorView::ParsingError(escaped(e.spec_input()), e.spec_kind()),
    {
        let input = escape(e.input());
        Error::ParsingError(input, e.kind)
    }

    /// The message that the error displays.
    pub fn to_string(&self) -> (r: String)
        ensures
            r@ == error_message(self@),
    {
        match self {
            Error::ParsingIncomplete => string_from_str("More input was expected by the parser"),
            Error::UnconsumedInput(i) => {
                let mut r = string_from_str("The parser did not consume the following input: \"");
                push_str(&mut r, i.as_str());
                push_str(&mut r, "\"");
                r
            },
            Error::ParsingError(i, k) => {
                let mut r = string_from_str(
                    "An error was encountered while parsing the expression \"",
                );
                push_str(&mut r, i.as_str());
                push_str(&mut r, "\": ");
                let m = k.to_string();
                push_str(&mut r, m.as_str());
                r
            },
            Error::PeParsingError(p, e) => {
                let mut r = string_from_str(
                    "An error was encountered while reading the version fields of \"",
                );
                push_str(&mut r, p.as_str());
                push_str(&mut r, "\": ");
                push_str(&mut r, e.as_str());
                r
            },
            Error::IoError(p, e) => {
                let mut r = string_from_str("An error was encountered while accessing the path \"");
                push_str(&mut r, p.as_str());
                push_str(&mut r, "\": ");
                push_str(&mut r, e.as_str());
                r
            },
        }
    }
}

} // verus!
