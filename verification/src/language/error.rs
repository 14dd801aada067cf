use vstd::prelude::*;
use super::text::{text, push_decimal};

verus! {

/// The stage at which an error of the language arose.
#[derive(Debug, Clone, Copy, PartialEq, Eq)]
pub enum ErrorKind {
    Lexer,
    Parser,
    Interpreter,
    Runtime,
}

/// An error of the language: its stage, a message and, where known, the
/// line and column at which it arose.
#[derive(Debug, Clone)]
pub struct Error {
    pub kind: ErrorKind,
    pub message: String,
    pub line: Option<usize>,
    pub column: Option<usize>,
}

/// The name of an error kind as it is printed.
pub open spec fn kind_name(k: ErrorKind) -> Seq<char> {
    match k {
        ErrorKind::Lexer => "Lexer"@,
        ErrorKind::Parser => "Parser"@,
        ErrorKind::Interpreter => "Interpreter"@,
        ErrorKind::Runtime => "Runtime"@,
    }
}

/// The text of an error: `<kind> ошибка: <message>`, followed by
/// ` (строка <line>, колонка <column>)` when both are known and by
/// ` (строка <line>)` when only the line is known.
pub open spec fn error_text(e: Error) -> Seq<char> {
    error_text_of(e.kind, e.message@, e.line, e.column)
}

/// The text of an error with the given kind, message and position (see
/// `error_text`).
pub open spec fn error_text_of(kind: ErrorKind, message: Seq<char>, line: Option<usize>, column: Option<usize>) -> Seq<char> {
    let head = kind_name(kind) + " ошибка: "@ + message;
    match (line, column) {
        (Some(l), Some(c)) => head + " (строка "@ + decimal_chars_of(l) + ", колонка "@ + decimal_chars_of(c) + ")"@,
        (Some(l), None) => head + " (строка "@ + decimal_chars_of(l) + ")"@,
        _ => head,
    }
}

/// The decimal representation of a `usize`.
pub open spec fn decimal_chars_of(n: usize) -> Seq<char> {
    super::text::decimal_chars(n as nat)
}

/// Builds an error of the given kind at the given position.
pub fn error_at(kind: ErrorKind, message: String, line: usize, column: usize) -> (e: Error)
    ensures
        e.kind == kind,
        e.message@ == message@,
        e.line == Some(line),
        e.column == Some(column),
{
    Error { kind, message, line: Some(line), column: Some(column) }
}

/// Builds an error of the given kind with no position.
pub fn error_without_position(kind: ErrorKind, message: String) -> (e: Error)
    ensures
        e.kind == kind,
        e.message@ == message@,
        e.line is None,
        e.column is None,
{
    Error { kind, message, line: None, column: None }
}

impl Error {
    /// The text of this error (see `error_text`).
    pub fn to_display_string(&self) -> (r: String)
        ensures
            r@ == error_text(*self),
    {
        let mut out = match self.kind {
            ErrorKind::Lexer => text("Lexer"),
            ErrorKind::Parser => text("Parser"),
            ErrorKind::Interpreter => text("Interpreter"),
            ErrorKind::Runtime => text("Runtime"),
        };
        out.append(" ошибка: ");
        out.append(self.message.as_str());
        match (self.line, self.column) {
            (Some(l), Some(c)) => {
                out.append(" (строка ");
                push_decimal(&mut out, l);
                out.append(", колонка ");
                push_decimal(&mut out, c);
                out.append(")");
            },
            (Some(l), None) => {
                out.append(" (строка ");
                push_decimal(&mut out, l);
                out.append(")");
            },
            _ => {},
        }
        out
    }
}

} // verus!
