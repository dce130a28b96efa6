//! What can go wrong while a document is parsed, validated or formatted.

use vstd::prelude::*;
use vstd::string::StringExecFns;

use crate::strings::{decimal_digits, push_decimal};

verus! {

/// The failures of the library's operations.
#[derive(Debug, Clone, PartialEq, Eq)]
pub enum MarkdownError {
    /// A construct at offset `pos` is malformed.
    ParseError { pos: usize, message: String },
    /// A container was closed otherwise than it was opened.
    InvalidNesting,
    /// The input ended inside a construct.
    UnexpectedEOF,
    /// One or more validation rules were broken; the text joins their
    /// messages, one per line.
    ValidationError(String),
    /// The formatter met a node that it has no rule for.
    FormattingError(String),
}

impl MarkdownError {
    /// The text that describes the error to a reader.
    pub open spec fn spec_message(self) -> Seq<char> {
        match self {
            MarkdownError::ParseError { pos, message } => "Parsing error at position "@
                + decimal_digits(pos as nat) + ": "@ + message@,
            MarkdownError::InvalidNesting => "Invalid nesting of blocks"@,
            MarkdownError::UnexpectedEOF => "Unexpected end of input"@,
            MarkdownError::ValidationError(text) => "Validation error: "@ + text@,
            MarkdownError::FormattingError(text) => "Formatting error: "@ + text@,
        }
    }

    /// The text that describes the error to a reader.
    pub fn message(&self) -> (text: String)
        ensures
            text@ == self.spec_message(),
    {
        match self {
            MarkdownError::ParseError { pos, message } => {
                let mut text = String::from_str("Parsing error at position ");
                push_decimal(&mut text, *pos);
                text.append(": ");
                text.append(message.as_str());
                text
            },
            MarkdownError::InvalidNesting => String::from_str("Invalid nesting of blocks"),
            MarkdownError::UnexpectedEOF => String::from_str("Unexpected end of input"),
            MarkdownError::ValidationError(inner) => {
                let mut text = String::from_str("Validation error: ");
                text.append(inner.as_str());
                text
            },
            MarkdownError::FormattingError(inner) => {
                let mut text = String::from_str("Formatting error: ");
                text.append(inner.as_str());
                text
            },
        }
    }
}

} // verus!
