//! Errors of reading a statement.

use vstd::prelude::*;

use crate::numeric;
use crate::text;

verus! {

/// Why a statement could not be read.
#[derive(Debug, Clone, PartialEq, Eq)]
pub enum ParseError {
    /// There was no statement.
    Empty,
    /// A token was not what the grammar calls for.
    Unexpected { offset: usize, expected: String, found: String },
    /// The statement is known but not implemented.
    Unsupported(String),
    /// A quoted string or identifier was not closed.
    Unterminated { offset: usize, kind: &'static str },
}

/// The model of a [`ParseError`].
pub enum ParseErrorView {
    Empty,
    Unexpected { offset: int, expected: Seq<char>, found: Seq<char> },
    Unsupported(Seq<char>),
    Unterminated { offset: int, kind: Seq<char> },
}

impl View for ParseError {
    type V = ParseErrorView;

    open spec fn view(&self) -> ParseErrorView {
        match *self {
            ParseError::Empty => ParseErrorView::Empty,
            ParseError::Unexpected { offset, expected, found } => ParseErrorView::Unexpected {
                offset: offset as int,
                expected: expected@,
                found: found@,
            },
            ParseError::Unsupported(what) => ParseErrorView::Unsupported(what@),
            ParseError::Unterminated { offset, kind } => ParseErrorView::Unterminated {
                offset: offset as int,
                kind: kind@,
            },
        }
    }
}

/// The message of an error.
pub open spec fn message_spec(e: ParseErrorView) -> Seq<char> {
    match e {
        ParseErrorView::Empty => "empty input: no statement to parse"@,
        ParseErrorView::Unexpected { offset, expected, found } => {
            "syntax error at byte "@ + numeric::decimal(offset as nat) + ": expected "@ + expected
                + ", found "@ + found
        },
        ParseErrorView::Unsupported(what) => "unsupported statement: "@ + what,
        ParseErrorView::Unterminated { offset, kind } => {
            "unterminated "@ + kind + " starting at byte "@ + numeric::decimal(offset as nat)
        },
    }
}

impl ParseError {
    /// The error in words.
    pub fn message(&self) -> (r: String)
        ensures
            r@ == message_spec(self@),
    {
        let mut out: Vec<char> = Vec::new();
        match self {
            ParseError::Empty => {
                text::push_text(&mut out, "empty input: no statement to parse");
            },
            ParseError::Unexpected { offset, expected, found } => {
                text::push_text(&mut out, "syntax error at byte ");
                numeric::push_decimal(&mut out, *offset as u64);
                text::push_text(&mut out, ": expected ");
                text::push_text(&mut out, expected.as_str());
                text::push_text(&mut out, ", found ");
                text::push_text(&mut out, found.as_str());
            },
            ParseError::Unsupported(what) => {
                text::push_text(&mut out, "unsupported statement: ");
                text::push_text(&mut out, what.as_str());
            },
            ParseError::Unterminated { offset, kind } => {
                text::push_text(&mut out, "unterminated ");
                text::push_text(&mut out, kind);
                text::push_text(&mut out, " starting at byte ");
                numeric::push_decimal(&mut out, *offset as u64);
            },
        }
        assert(out@ =~= message_spec(self@));
        text::string_of(&out)
    }
}

} // verus!
