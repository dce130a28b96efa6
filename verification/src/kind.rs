//! The kinds of syntax tree nodes and of tokens.

use std::str::FromStr;

use vstd::prelude::*;
use vstd::string::StrSliceExecFns;

verus! {

/// The state of a task, written as one symbol between `|(` and `)|`.
#[derive(Debug, Clone, Copy, PartialEq, Eq, Hash, Structural)]
pub enum TaskStatus {
    /// ` `
    Undone,
    /// `x`
    Done,
    /// `?`
    NeedsInput,
    /// `!`
    Urgent,
    /// `+`
    Recurring,
    /// `-`
    Pending,
    /// `=`
    OnHold,
    /// `_`
    Cancelled,
}

/// The status that a symbol stands for.
pub open spec fn symbol_status(symbol: char) -> Option<TaskStatus> {
    if symbol == ' ' {
        Some(TaskStatus::Undone)
    } else if symbol == 'x' {
        Some(TaskStatus::Done)
    } else if symbol == '?' {
        Some(TaskStatus::NeedsInput)
    } else if symbol == '!' {
        Some(TaskStatus::Urgent)
    } else if symbol == '+' {
        Some(TaskStatus::Recurring)
    } else if symbol == '-' {
        Some(TaskStatus::Pending)
    } else if symbol == '=' {
        Some(TaskStatus::OnHold)
    } else if symbol == '_' {
        Some(TaskStatus::Cancelled)
    } else {
        None
    }
}

/// The status that a text stands for: the text has to be one symbol.
pub open spec fn text_status(text: Seq<char>) -> Option<TaskStatus> {
    if text.len() == 1 {
        symbol_status(text[0])
    } else {
        None
    }
}

impl TaskStatus {
    /// The status that a symbol stands for.
    pub fn from_symbol(symbol: char) -> (status: Option<TaskStatus>)
        ensures
            status == symbol_status(symbol),
    {
        if symbol == ' ' {
            Some(TaskStatus::Undone)
        } else if symbol == 'x' {
            Some(TaskStatus::Done)
        } else if symbol == '?' {
            Some(TaskStatus::NeedsInput)
        } else if symbol == '!' {
            Some(TaskStatus::Urgent)
        } else if symbol == '+' {
            Some(TaskStatus::Recurring)
        } else if symbol == '-' {
            Some(TaskStatus::Pending)
        } else if symbol == '=' {
            Some(TaskStatus::OnHold)
        } else if symbol == '_' {
            Some(TaskStatus::Cancelled)
        } else {
            None
        }
    }

    /// The status that a text stands for, if it is one of the eight symbols.
    pub fn parse(text: &str) -> (status: Option<TaskStatus>)
        ensures
            status == text_status(text@),
    {
        if text.unicode_len() == 1 {
            TaskStatus::from_symbol(text.get_char(0))
        } else {
            None
        }
    }
}

impl FromStr for TaskStatus {
    type Err = ();

    fn from_str(s: &str) -> (status: Result<TaskStatus, ()>)
        ensures
            status == match text_status(s@) {
                Some(found) => Ok::<TaskStatus, ()>(found),
                None => Err(()),
            },
    {
        match TaskStatus::parse(s) {
            Some(status) => Ok(status),
            None => Err(()),
        }
    }
}

/// A token: the smallest piece of source text with a meaning.
#[derive(Debug, Clone, PartialEq, Eq, Hash)]
pub enum Token {
    /// A run of `*`.
    Heading { level: usize },
    /// A run of three or more `-`.
    ReverseHeading { levels: usize },
    /// A run of one or two `-`.
    UnorderedList { level: usize },
    /// A run of `~`.
    OrderedList { level: usize },
    /// `|(`
    TaskMarkerStart,
    /// `)|`
    TaskMarkerEnd,
    /// The symbol between the task markers.
    TaskStatus(TaskStatus),
    /// `@code`, with the language named behind it on the same line.
    CodeBlockStart { language: Option<String> },
    /// `@end`
    CodeBlockEnd,
    Bold,
    /// `/`
    Italic,
    /// `_`
    Underline,
    Strikethrough,
    /// `!`
    Spoiler,
    /// A backtick.
    Verbatim,
    /// `%`
    Comment,
    /// `{`
    LinkStart,
    /// `}`
    LinkEnd,
    /// `[`
    LinkDescStart,
    /// `]`
    LinkDescEnd,
    LinkModifier(char),
    /// A run of characters that are neither markers nor white space.
    Text(String),
    Whitespace(String),
    /// A line feed.
    Newline,
    /// `|`
    Pipe,
    /// The end of the input.
    Eof,
}

/// The model of a [`Token`].
pub enum TokenModel {
    Heading { level: usize },
    ReverseHeading { levels: usize },
    UnorderedList { level: usize },
    OrderedList { level: usize },
    TaskMarkerStart,
    TaskMarkerEnd,
    TaskStatus(TaskStatus),
    CodeBlockStart { language: Option<Seq<char>> },
    CodeBlockEnd,
    Bold,
    Italic,
    Underline,
    Strikethrough,
    Spoiler,
    Verbatim,
    Comment,
    LinkStart,
    LinkEnd,
    LinkDescStart,
    LinkDescEnd,
    LinkModifier(char),
    Text(Seq<char>),
    Whitespace(Seq<char>),
    Newline,
    Pipe,
    Eof,
}

impl View for Token {
    type V = TokenModel;

    open spec fn view(&self) -> TokenModel {
        match self {
            Token::Heading { level } => TokenModel::Heading { level: *level },
            Token::ReverseHeading { levels } => TokenModel::ReverseHeading { levels: *levels },
            Token::UnorderedList { level } => TokenModel::UnorderedList { level: *level },
            Token::OrderedList { level } => TokenModel::OrderedList { level: *level },
            Token::TaskMarkerStart => TokenModel::TaskMarkerStart,
            Token::TaskMarkerEnd => TokenModel::TaskMarkerEnd,
            Token::TaskStatus(status) => TokenModel::TaskStatus(*status),
            Token::CodeBlockStart { language } => TokenModel::CodeBlockStart {
                language: match language {
                    Some(name) => Some(name@),
                    None => None,
                },
            },
            Token::CodeBlockEnd => TokenModel::CodeBlockEnd,
            Token::Bold => TokenModel::Bold,
            Token::Italic => TokenModel::Italic,
            Token::Underline => TokenModel::Underline,
            Token::Strikethrough => TokenModel::Strikethrough,
            Token::Spoiler => TokenModel::Spoiler,
            Token::Verbatim => TokenModel::Verbatim,
            Token::Comment => TokenModel::Comment,
            Token::LinkStart => TokenModel::LinkStart,
            Token::LinkEnd => TokenModel::LinkEnd,
            Token::LinkDescStart => TokenModel::LinkDescStart,
            Token::LinkDescEnd => TokenModel::LinkDescEnd,
            Token::LinkModifier(c) => TokenModel::LinkModifier(*c),
            Token::Text(text) => TokenModel::Text(text@),
            Token::Whitespace(text) => TokenModel::Whitespace(text@),
            Token::Newline => TokenModel::Newline,
            Token::Pipe => TokenModel::Pipe,
            Token::Eof => TokenModel::Eof,
        }
    }
}

/// The models of a sequence of tokens, in order.
pub open spec fn token_views(tokens: Seq<Token>) -> Seq<TokenModel> {
    Seq::new(tokens.len(), |i: int| tokens[i]@)
}

/// What construct a syntax tree node stands for.
#[derive(Debug, Clone, Copy, PartialEq, Eq, Hash, Structural)]
pub enum SyntaxKind {
    Document,
    Heading,
    Paragraph,
    Text,
    Bold,
    Italic,
    LineBreak,
    Error,
}

} // verus!
