//! Source positions: where a piece of syntax sits in the text it came from.

use vstd::prelude::*;

verus! {

/// A half-open range `[start, end)` of character offsets, together with the
/// line and column at which the range was recorded.
#[derive(Debug, Clone, Copy, PartialEq, Eq, Hash, Structural)]
pub struct Span {
    /// Offset of the first character.
    pub start: usize,
    /// Offset one past the last character.
    pub end: usize,
    /// Line recorded for the span.
    pub line: usize,
    /// Column recorded for the span.
    pub column: usize,
}

impl Span {
    /// A span is well formed when it does not end before it starts.
    pub open spec fn wf(self) -> bool {
        self.start <= self.end
    }

    /// Whether `inner` lies wholly inside this span.
    pub open spec fn encloses(self, inner: Span) -> bool {
        self.start <= inner.start && inner.end <= self.end
    }

    /// The span that no buffer owns.
    pub open spec fn spec_detached() -> Span {
        Span { start: 1, end: 1, line: 1, column: 1 }
    }

    /// Builds a span from its four parts.
    pub fn new(start: usize, end: usize, line: usize, column: usize) -> (span: Span)
        ensures
            span == (Span { start, end, line, column }),
    {
        Span { start, end, line, column }
    }

    /// The offsets covered, as a range.
    pub fn range(&self) -> (range: std::ops::Range<usize>)
        ensures
            range.start == self.start,
            range.end == self.end,
    {
        self.start..self.end
    }

    /// Line and column, in that order.
    pub fn line_column(&self) -> (pair: (usize, usize))
        ensures
            pair == (self.line, self.column),
    {
        (self.line, self.column)
    }

    /// A placeholder span that is anchored to no buffer.
    pub fn detached() -> (span: Span)
        ensures
            span == Span::spec_detached(),
            span.wf(),
    {
        Span { start: 1, end: 1, line: 1, column: 1 }
    }

    /// Whether this is the placeholder span.
    pub fn is_detached(&self) -> (detached: bool)
        ensures
            detached == (*self == Span::spec_detached()),
    {
        self.start == 1 && self.end == 1 && self.line == 1 && self.column == 1
    }
}

/// A place in a text as an editor names it: a line and a character within
/// the line, both counted from zero and both in characters.
#[derive(Debug, Clone, Copy, PartialEq, Eq, Hash, Structural)]
pub struct Position {
    pub line: u32,
    pub character: u32,
}

impl Position {
    /// The place at a line and a character.
    pub fn new(line: u32, character: u32) -> (position: Position)
        ensures
            position == (Position { line, character }),
    {
        Position { line, character }
    }
}

/// A stretch of text between two places, the second not included.
#[derive(Debug, Clone, Copy, PartialEq, Eq, Hash, Structural)]
pub struct Range {
    pub start: Position,
    pub end: Position,
}

impl Range {
    /// The stretch from `start` up to `end`.
    pub fn new(start: Position, end: Position) -> (range: Range)
        ensures
            range == (Range { start, end }),
    {
        Range { start, end }
    }

    /// The range that no buffer owns.
    pub open spec fn spec_detached() -> Range {
        Range {
            start: Position { line: 1, character: 1 },
            end: Position { line: 1, character: 1 },
        }
    }

    /// A placeholder range that is anchored to no buffer.
    pub fn detached() -> (range: Range)
        ensures
            range == Range::spec_detached(),
    {
        Range {
            start: Position { line: 1, character: 1 },
            end: Position { line: 1, character: 1 },
        }
    }
}

/// A value together with the span it was read from.
#[derive(Debug, Clone, Copy, PartialEq, Eq, Hash)]
pub struct Spanned<T> {
    /// The value.
    pub v: T,
    /// Where the value sits in the source.
    pub span: Span,
}

impl<T> Spanned<T> {
    /// Pairs a value with its span.
    pub fn new(v: T, span: Span) -> (spanned: Spanned<T>)
        ensures
            spanned.v == v,
            spanned.span == span,
    {
        Spanned { v, span }
    }

    /// Borrows the value, keeping the span.
    pub fn as_ref(&self) -> (spanned: Spanned<&T>)
        ensures
            *spanned.v == self.v,
            spanned.span == self.span,
    {
        Spanned { v: &self.v, span: self.span }
    }

    /// Applies `f` to the value, keeping the span.
    pub fn map<F, U>(self, f: F) -> (spanned: Spanned<U>) where F: FnOnce(T) -> U
        requires
            f.requires((self.v,)),
        ensures
            f.ensures((self.v,), spanned.v),
            spanned.span == self.span,
    {
        Spanned { v: f(self.v), span: self.span }
    }
}

} // verus!
