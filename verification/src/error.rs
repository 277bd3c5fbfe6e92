//! Error values reported by the lexer and the parser.

use vstd::prelude::*;
use vstd::string::StringExecFns;

verus! {

/// The error taxonomy of the front end. Each variant carries a
/// human-readable message; no position metadata is recorded.
#[derive(Debug, Clone)]
pub enum ParseError {
    UnexpectedToken(String),
    ExpectedToken(String),
    ExpectedIdentifier(String),
    ExpectedType(String),
    ExpectedKeyword(String),
    ExpectedNumber(String),
    UnexpectedEndOfInput(String),
    InvalidInput(String),
}

impl ParseError {
    /// A display string for the error: a fixed prefix naming the kind,
    /// followed by the carried message.
    pub fn message(&self) -> (r: String)
        ensures
            r@ == match self {
                ParseError::UnexpectedToken(m) => "Unexpected token: "@ + m@,
                ParseError::ExpectedToken(m) => "Expected token: "@ + m@,
                ParseError::ExpectedIdentifier(m) => "Expected identifier: "@ + m@,
                ParseError::ExpectedType(m) => "Expected type: "@ + m@,
                ParseError::ExpectedKeyword(m) => "Expected keyword: "@ + m@,
                ParseError::ExpectedNumber(m) => "Expected number: "@ + m@,
                ParseError::UnexpectedEndOfInput(m) => "Unexpected end of input: "@ + m@,
                ParseError::InvalidInput(m) => "Invalid input: "@ + m@,
            },
    {
        let (prefix, m) = match self {
            ParseError::UnexpectedToken(m) => ("Unexpected token: ", m),
            ParseError::ExpectedToken(m) => ("Expected token: ", m),
            ParseError::ExpectedIdentifier(m) => ("Expected identifier: ", m),
            ParseError::ExpectedType(m) => ("Expected type: ", m),
            ParseError::ExpectedKeyword(m) => ("Expected keyword: ", m),
            ParseError::ExpectedNumber(m) => ("Expected number: ", m),
            ParseError::UnexpectedEndOfInput(m) => ("Unexpected end of input: ", m),
            ParseError::InvalidInput(m) => ("Invalid input: ", m),
        };
        let mut r = String::from_str(prefix);
        r.append(m.as_str());
        r
    }
}

} // verus!
