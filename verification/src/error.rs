//! The error types of the reader.

use vstd::prelude::*;

verus! {

/// Why the lexer could not produce a token.
#[derive(Debug, Clone, Copy, PartialEq, Eq, Structural)]
pub enum LexReason {
    /// The input ended where a token was expected.
    UnexpectedEof,
    /// One of `)`, `{`, `}` where a token was expected.
    StrayDelimiter,
    /// A single `>` that is not followed by a second one.
    StrayGreater,
    /// A `#` in a name or word that is not followed by two hexadecimal digits.
    BadNameEscape,
    /// The bytes of a name or word are not valid UTF-8.
    InvalidNameText,
    /// A number that is not an optional sign, digits and at most one dot.
    MalformedNumber,
    /// A number whose digits do not fit the integer type that holds them.
    NumberOutOfRange,
    /// A literal string whose closing parenthesis is missing.
    UnterminatedString,
    /// A byte inside `<...>` that is neither a hexadecimal digit nor white-space.
    BadHexDigit,
    /// A hexadecimal string whose closing `>` is missing.
    UnterminatedHexString,
    /// A word that is not one of the keywords.
    UnknownKeyword,
}

/// A lex error: the byte offset at which it was found, and the reason.
#[derive(Debug, Clone, Copy, PartialEq, Eq, Structural)]
pub struct LexError {
    pub offset: usize,
    pub reason: LexReason,
}

/// An error as a message for people.
#[derive(Debug, PartialEq, Eq)]
pub struct ParseError {
    pub msg: String,
}

impl ParseError {
    /// An error with the message `msg`.
    pub fn new(msg: &str) -> (e: Self)
        ensures
            e.msg@ == msg@,
    {
        ParseError { msg: msg.to_owned() }
    }
}

impl LexReason {
    /// The text that describes each reason.
    pub open spec fn text(self) -> Seq<char> {
        match self {
            LexReason::UnexpectedEof => "unexpected end of input"@,
            LexReason::StrayDelimiter => "unexpected delimiter"@,
            LexReason::StrayGreater => "single '>'"@,
            LexReason::BadNameEscape => "'#' is not followed by two hexadecimal digits"@,
            LexReason::InvalidNameText => "name is not valid UTF-8"@,
            LexReason::MalformedNumber => "malformed number"@,
            LexReason::NumberOutOfRange => "number out of range"@,
            LexReason::UnterminatedString => "unterminated literal string"@,
            LexReason::BadHexDigit => "invalid byte in hexadecimal string"@,
            LexReason::UnterminatedHexString => "unterminated hexadecimal string"@,
            LexReason::UnknownKeyword => "unknown keyword"@,
        }
    }

    /// The reason as a message.
    pub fn describe(self) -> (e: ParseError)
        ensures
            e.msg@ == self.text(),
    {
        match self {
            LexReason::UnexpectedEof => ParseError::new("unexpected end of input"),
            LexReason::StrayDelimiter => ParseError::new("unexpected delimiter"),
            LexReason::StrayGreater => ParseError::new("single '>'"),
            LexReason::BadNameEscape => ParseError::new(
                "'#' is not followed by two hexadecimal digits",
            ),
            LexReason::InvalidNameText => ParseError::new("name is not valid UTF-8"),
            LexReason::MalformedNumber => ParseError::new("malformed number"),
            LexReason::NumberOutOfRange => ParseError::new("number out of range"),
            LexReason::UnterminatedString => ParseError::new("unterminated literal string"),
            LexReason::BadHexDigit => ParseError::new("invalid byte in hexadecimal string"),
            LexReason::UnterminatedHexString => ParseError::new(
                "unterminated hexadecimal string",
            ),
            LexReason::UnknownKeyword => ParseError::new("unknown keyword"),
        }
    }
}

/// What was being parsed when a structural error was found.
#[derive(Debug, Clone, Copy, PartialEq, Eq, Structural)]
pub enum Context {
    Dictionary,
    Array,
    Object,
}

/// Why the tokens do not make up what was being parsed.
#[derive(Debug, Clone, Copy, PartialEq, Eq, Structural)]
pub enum StructuralReason {
    /// The lexer found no token.
    Lex(LexReason),
    /// A dictionary holds something else where a key or `>>` must stand.
    ExpectedName,
    /// A token that starts no value where a value must stand.
    UnexpectedToken,
    /// An `R` in an array that does not follow two integers.
    DanglingReference,
    /// An array does not start with `[`.
    ExpectedArray,
    /// An object does not start with two integers and `obj`.
    ExpectedObjectHeader,
    /// Neither `endobj` nor `stream` follows the dictionary of an object.
    ExpectedEndOfObject,
    /// The dictionary of a stream holds no usable `Length`.
    BadStreamLength,
    /// The file ends before the bytes of a stream do.
    TruncatedStream,
}

/// A structural error: what was being parsed, the offset from which the
/// offending token was read, and the reason.
#[derive(Debug, Clone, Copy, PartialEq, Eq, Structural)]
pub struct StructuralError {
    pub context: Context,
    pub offset: usize,
    pub reason: StructuralReason,
}

} // verus!
