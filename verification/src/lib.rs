//! Syntax analysis for a lightweight markup language: tokens, a concrete
//! syntax tree with source spans, validation, formatting, and the text
//! buffers of an editing session.

pub mod buffer;
pub mod canonical;
pub mod document;
pub mod error;
pub mod format;
pub mod kind;
pub mod lang;
pub mod layout;
pub mod lexer;
pub mod node;
pub mod parse;
pub mod print;
pub mod scanner;
pub mod span;
pub mod store;
pub mod strings;
pub mod types;
pub mod validate;
