//! Errors that can occur during parsing of Redcode source.
use vstd::prelude::*;

use crate::text::{chars_of, decimal, decimal_chars, string_of};

verus! {

/// Errors that can occur during parsing of Redcode source.
#[derive(Debug)]
pub enum ParseError {
    Syntax { line: usize, message: String },
    UndefinedLabel { label: String, line: usize },
    DuplicateLabel { label: String, line: usize },
    TooLong { max_length: usize },
    InvalidOpcode { opcode: String, line: usize },
    InvalidDirective { directive: String, line: usize },
    InvalidModifier { modifier: String, line: usize },
    CircularEqu { name: String, line: usize },
    DivisionByZero { line: usize },
}

/// The mathematical value of a [`ParseError`].
pub ghost enum SpecParseError {
    Syntax { line: nat, message: Seq<char> },
    UndefinedLabel { label: Seq<char>, line: nat },
    DuplicateLabel { label: Seq<char>, line: nat },
    TooLong { max_length: nat },
    InvalidOpcode { opcode: Seq<char>, line: nat },
    InvalidDirective { directive: Seq<char>, line: nat },
    InvalidModifier { modifier: Seq<char>, line: nat },
    CircularEqu { name: Seq<char>, line: nat },
    DivisionByZero { line: nat },
}

pub open spec fn error_view(e: ParseError) -> SpecParseError {
    match e {
        ParseError::Syntax { line, message } => SpecParseError::Syntax {
            line: line as nat,
            message: message@,
        },
        ParseError::UndefinedLabel { label, line } => SpecParseError::UndefinedLabel {
            label: label@,
            line: line as nat,
        },
        ParseError::DuplicateLabel { label, line } => SpecParseError::DuplicateLabel {
            label: label@,
            line: line as nat,
        },
        ParseError::TooLong { max_length } => SpecParseError::TooLong {
            max_length: max_length as nat,
        },
        ParseError::InvalidOpcode { opcode, line } => SpecParseError::InvalidOpcode {
            opcode: opcode@,
            line: line as nat,
        },
        ParseError::InvalidDirective { directive, line } => SpecParseError::InvalidDirective {
            directive: directive@,
            line: line as nat,
        },
        ParseError::InvalidModifier { modifier, line } => SpecParseError::InvalidModifier {
            modifier: modifier@,
            line: line as nat,
        },
        ParseError::CircularEqu { name, line } => SpecParseError::CircularEqu {
            name: name@,
            line: line as nat,
        },
        ParseError::DivisionByZero { line } => SpecParseError::DivisionByZero { line: line as nat },
    }
}

/// The human-readable description of an error.
pub open spec fn spec_message(e: SpecParseError) -> Seq<char> {
    match e {
        SpecParseError::Syntax { line, message } => "syntax error at line "@ + decimal(line) + ": "@
            + message,
        SpecParseError::UndefinedLabel { label, line } => "undefined label '"@ + label
            + "' at line "@ + decimal(line),
        SpecParseError::DuplicateLabel { label, line } => "duplicate label '"@ + label
            + "' at line "@ + decimal(line),
        SpecParseError::TooLong { max_length } => "warrior exceeds maximum length of "@ + decimal(
            max_length,
        ) + " instructions"@,
        SpecParseError::InvalidOpcode { opcode, line } => "invalid opcode '"@ + opcode
            + "' at line "@ + decimal(line),
        SpecParseError::InvalidDirective { directive, line } => "invalid directive '"@ + directive
            + "' at line "@ + decimal(line),
        SpecParseError::InvalidModifier { modifier, line } => "invalid modifier '"@ + modifier
            + "' at line "@ + decimal(line),
        SpecParseError::CircularEqu { name, line } => "circular EQU definition of '"@ + name
            + "' at line "@ + decimal(line),
        SpecParseError::DivisionByZero { line } => "division by zero at line "@ + decimal(line),
    }
}

/// `prefix`, `text` and then `" at line <line>"`.
fn located(prefix: &str, text: &String, line: usize) -> (r: Vec<char>)
    ensures
        r@ == prefix@ + text@ + "' at line "@ + decimal(line as nat),
{
    let mut r = chars_of(prefix);
    let mut t = chars_of(text.as_str());
    let mut mid = chars_of("' at line ");
    let mut n = decimal_chars(line as u64);
    r.append(&mut t);
    r.append(&mut mid);
    r.append(&mut n);
    r
}

impl ParseError {
    /// The human-readable description of this error (see [`spec_message`]).
    pub fn message(&self) -> (r: String)
        ensures
            r@ == spec_message(error_view(*self)),
    {
        let v = match self {
            ParseError::Syntax { line, message } => {
                let mut r = chars_of("syntax error at line ");
                let mut n = decimal_chars(*line as u64);
                let mut sep = chars_of(": ");
                let mut m = chars_of(message.as_str());
                r.append(&mut n);
                r.append(&mut sep);
                r.append(&mut m);
                r
            },
            ParseError::UndefinedLabel { label, line } => located("undefined label '", label, *line),
            ParseError::DuplicateLabel { label, line } => located("duplicate label '", label, *line),
            ParseError::TooLong { max_length } => {
                let mut r = chars_of("warrior exceeds maximum length of ");
                let mut n = decimal_chars(*max_length as u64);
                let mut tail = chars_of(" instructions");
                r.append(&mut n);
                r.append(&mut tail);
                r
            },
            ParseError::InvalidOpcode { opcode, line } => located("invalid opcode '", opcode, *line),
            ParseError::InvalidDirective { directive, line } => located(
                "invalid directive '",
                directive,
                *line,
            ),
            ParseError::InvalidModifier { modifier, line } => located(
                "invalid modifier '",
                modifier,
                *line,
            ),
            ParseError::CircularEqu { name, line } => located(
                "circular EQU definition of '",
                name,
                *line,
            ),
            ParseError::DivisionByZero { line } => {
                let mut r = chars_of("division by zero at line ");
                let mut n = decimal_chars(*line as u64);
                r.append(&mut n);
                r
            },
        };
        string_of(v.as_slice())
    }
}

} // verus!
