//! The parser: from source text to a concrete syntax tree.
//!
//! The grammar, by one or two characters of lookahead:
//!
//! * a document is a run of blocks; line feeds between blocks are skipped;
//! * a heading is a run of `*` with white space behind it, then one inline
//!   node. Its level is the length of the run, six at most;
//! * where the run is longer than six, the heading is of level six and the
//!   `*` beyond the sixth are its body: an error node that says so. What
//!   follows them on the line is read as a paragraph;
//! * a paragraph is a run of inline nodes up to the end of the line;
//! * an inline node is bold (a doubled `*`, `_` or `/`), italic (a single
//!   one), a line break, or text up to the next of these characters;
//! * bold and italic hold inline nodes up to their closing marker. Where the
//!   input ends before the marker, the node closes there.
//!
//! Lines and columns in spans count from one and belong to the first
//! character of the span.

use vstd::prelude::*;

use ropey::Rope;

use crate::buffer::{column_index, line_index, rope_char, rope_from_str, rope_len_chars, rope_text};
use crate::error::MarkdownError;
use crate::format::{no_rule_message, renderable, rendered, FormattingOptions, MarkdownFormatter};
use crate::kind::SyntaxKind;
use crate::node::{
    cst_views, lemma_filter_subset, lemma_preorder_all_members, of_kind, preorder_all, ASTNode,
    CSTNode, Cst, ErrorModel, SyntaxError,
};
use crate::span::Span;
use crate::strings::{char_is_blank, is_blank, joined, push_char};
use crate::validate::{default_rules, violations, MarkdownValidator, ValidationRule};

verus! {

/// The characters that open and close bold and italic text.
pub open spec fn is_emphasis_marker(c: char) -> bool {
    c == '*' || c == '_' || c == '/'
}

/// The characters at which a run of plain text ends.
pub open spec fn ends_text(c: char) -> bool {
    is_emphasis_marker(c) || c == '\n'
}

/// A count from zero turned into a count from one, held at the largest
/// number there is.
pub open spec fn one_based(index: nat) -> usize {
    if index < usize::MAX {
        (index + 1) as usize
    } else {
        usize::MAX
    }
}

/// The span from `start` to `end`, with the line and column of `start`.
pub open spec fn span_at(text: Seq<char>, start: int, end: int) -> Span {
    Span {
        start: start as usize,
        end: end as usize,
        line: one_based(line_index(text, start)),
        column: one_based(column_index(text, start)),
    }
}

/// The character at `index`, or the null character beyond the end.
pub open spec fn char_at(text: Seq<char>, index: int) -> char {
    if 0 <= index < text.len() {
        text[index]
    } else {
        '\0'
    }
}

/// Where the run of plain text that starts at `pos` ends.
pub open spec fn text_run_end(text: Seq<char>, pos: int) -> int
    decreases text.len() - pos,
{
    if 0 <= pos < text.len() && !ends_text(text[pos]) {
        text_run_end(text, pos + 1)
    } else {
        pos
    }
}

/// Where the run of `*` that starts at `pos` ends.
pub open spec fn star_run_end(text: Seq<char>, pos: int) -> int
    decreases text.len() - pos,
{
    if 0 <= pos < text.len() && text[pos] == '*' {
        star_run_end(text, pos + 1)
    } else {
        pos
    }
}

/// Where the run of white space within a line that starts at `pos` ends.
pub open spec fn blank_run_end(text: Seq<char>, pos: int) -> int
    decreases text.len() - pos,
{
    if 0 <= pos < text.len() && is_blank(text[pos]) {
        blank_run_end(text, pos + 1)
    } else {
        pos
    }
}

/// Whether a run of `*` starts at `pos` with white space behind it.
pub open spec fn marks_heading(text: Seq<char>, pos: int) -> bool {
    let end = star_run_end(text, pos);
    pos < end < text.len() && is_blank(text[end])
}

/// Where the markers that count for the level of the heading at `pos` end:
/// behind the run of `*`, or behind its sixth where it is longer.
pub open spec fn level_end(text: Seq<char>, pos: int) -> int {
    if star_run_end(text, pos) - pos > 6 {
        pos + 6
    } else {
        star_run_end(text, pos)
    }
}

/// The text node at `pos` and where it ends.
pub open spec fn text_at(text: Seq<char>, pos: int) -> (Cst, int) {
    let end = text_run_end(text, pos);
    (Cst::Text { content: text.subrange(pos, end), span: span_at(text, pos, end) }, end)
}

/// Whether the marker that closes a bold (`double`) or an italic node stands
/// at `pos`.
pub open spec fn closes_emphasis(text: Seq<char>, pos: int, marker: char, double: bool) -> bool {
    &&& 0 <= pos < text.len()
    &&& text[pos] == marker
    &&& double ==> pos + 1 < text.len() && text[pos + 1] == marker
}

/// The inline nodes from `pos` up to the marker that closes them, or to the
/// end of the input, and where they end.
pub open spec fn emphasis_items(text: Seq<char>, pos: int, marker: char, double: bool) -> (
    Seq<Cst>,
    int,
)
    decreases text.len() - pos, 3nat,
{
    if pos < 0 || pos >= text.len() || closes_emphasis(text, pos, marker, double) {
        (Seq::empty(), pos)
    } else {
        let (first, next) = inline_at(text, pos);
        if next <= pos || next > text.len() {
            (seq![first], next)
        } else {
            let (rest, end) = emphasis_items(text, next, marker, double);
            (seq![first] + rest, end)
        }
    }
}

/// The bold (`double`) or italic node whose opening marker stands at `pos`,
/// and where it ends.
pub open spec fn emphasis_at(text: Seq<char>, pos: int, double: bool) -> (Cst, int)
    decreases text.len() - pos, 1nat,
{
    if pos < 0 || pos >= text.len() {
        text_at(text, pos)
    } else {
        let marker = text[pos];
        let width: int = if double {
            2
        } else {
            1
        };
        let opened = if pos + width <= text.len() {
            pos + width
        } else {
            text.len() as int
        };
        let (content, stop) = emphasis_items(text, opened, marker, double);
        let end = if closes_emphasis(text, stop, marker, double) {
            stop + width
        } else {
            stop
        };
        let markers = span_at(text, pos, opened);
        let span = span_at(text, pos, end);
        if double {
            (Cst::Bold { content, markers, span }, end)
        } else {
            (Cst::Italic { content, markers, span }, end)
        }
    }
}

/// The inline node at `pos` and where it ends.
pub open spec fn inline_at(text: Seq<char>, pos: int) -> (Cst, int)
    decreases text.len() - pos, 2nat,
{
    if 0 <= pos < text.len() && is_emphasis_marker(text[pos]) {
        emphasis_at(text, pos, char_at(text, pos + 1) == text[pos])
    } else if 0 <= pos < text.len() && text[pos] == '\n' {
        (Cst::LineBreak { span: span_at(text, pos, pos + 1) }, pos + 1)
    } else {
        text_at(text, pos)
    }
}

/// The inline nodes from `pos` to the end of the line, and where they end.
pub open spec fn paragraph_items(text: Seq<char>, pos: int) -> (Seq<Cst>, int)
    decreases text.len() - pos,
{
    if pos < 0 || pos >= text.len() || text[pos] == '\n' {
        (Seq::empty(), pos)
    } else {
        let (first, next) = inline_at(text, pos);
        if next <= pos || next > text.len() {
            (seq![first], next)
        } else {
            let (rest, end) = paragraph_items(text, next);
            (seq![first] + rest, end)
        }
    }
}

/// The paragraph at `pos` and where it ends.
pub open spec fn paragraph_at(text: Seq<char>, pos: int) -> (Cst, int) {
    let (content, end) = paragraph_items(text, pos);
    (Cst::Paragraph { content, span: span_at(text, pos, end) }, end)
}

/// What the error node for too many heading markers says.
pub open spec fn overlong_message() -> Seq<char> {
    "heading nested deeper than six levels"@
}

/// The advice that the error node for too many heading markers gives.
pub open spec fn overlong_hint() -> Seq<char> {
    "use at most six `*` in front of the heading text"@
}

/// The error node for the `*` that stand at `pos` beyond the sixth of a
/// heading, and where it ends.
pub open spec fn excess_at(text: Seq<char>, pos: int) -> (Cst, int) {
    let end = star_run_end(text, pos);
    (
        Cst::Error {
            text: text.subrange(pos, end),
            error: ErrorModel {
                span: span_at(text, pos, end),
                message: overlong_message(),
                hints: seq![overlong_hint()],
            },
        },
        end,
    )
}

/// The heading at `pos` and where it ends. Its level is the number of its
/// `*`, six at most. Its body is the inline node behind the markers and the
/// white space that follows them, or the error node for the `*` beyond the
/// sixth.
pub open spec fn heading_at(text: Seq<char>, pos: int) -> (Cst, int) {
    let stars = level_end(text, pos);
    if stars < star_run_end(text, pos) {
        let (content, end) = excess_at(text, stars);
        (
            Cst::Heading {
                level: (stars - pos) as u8,
                content: seq![content],
                markers: span_at(text, pos, stars),
                span: span_at(text, pos, end),
            },
            end,
        )
    } else {
        let body = blank_run_end(text, stars);
        let (content, end) = inline_at(text, body);
        (
            Cst::Heading {
                level: (stars - pos) as u8,
                content: seq![content],
                markers: span_at(text, pos, body),
                span: span_at(text, pos, end),
            },
            end,
        )
    }
}

/// The blocks from `pos` to the end of the input.
pub open spec fn blocks_from(text: Seq<char>, pos: int) -> Seq<Cst>
    decreases text.len() - pos,
{
    if pos < 0 || pos >= text.len() {
        Seq::empty()
    } else if text[pos] == '\n' {
        blocks_from(text, pos + 1)
    } else {
        let (block, next) = if marks_heading(text, pos) {
            heading_at(text, pos)
        } else {
            paragraph_at(text, pos)
        };
        if next <= pos || next > text.len() {
            seq![block]
        } else {
            seq![block] + blocks_from(text, next)
        }
    }
}

/// The document that the text from `pos` on holds.
pub open spec fn document_from(text: Seq<char>, pos: int) -> Cst {
    Cst::Document { children: blocks_from(text, pos), span: span_at(text, pos, text.len() as int) }
}

/// The document that `text` holds.
pub open spec fn document_of(text: Seq<char>) -> Cst {
    document_from(text, 0)
}

/// A place in the source: an offset with its line and column, both counted
/// from zero.
#[derive(Clone, Copy)]
struct Mark {
    pos: usize,
    line: usize,
    column: usize,
}

/// A count from zero turned into a count from one, held at the largest
/// number there is.
fn count_from_one(index: usize) -> (count: usize)
    ensures
        count == one_based(index as nat),
{
    if index < usize::MAX {
        index + 1
    } else {
        usize::MAX
    }
}

/// A parser over one source text. It reads from its current position on.
pub struct Parser {
    text: Rope,
    at: Mark,
}

impl Parser {
    /// The text being parsed.
    pub closed spec fn source(&self) -> Seq<char> {
        rope_text(self.text)
    }

    /// The offset of the next character to read.
    pub closed spec fn position(&self) -> int {
        self.at.pos as int
    }

    /// The parser stands inside its text and knows its line and column.
    #[verifier::type_invariant]
    pub closed spec fn wf(&self) -> bool {
        &&& self.at.pos <= self.source().len() <= usize::MAX
        &&& self.at.line == line_index(self.source(), self.at.pos as int)
        &&& self.at.column == column_index(self.source(), self.at.pos as int)
        &&& self.at.line <= self.at.pos
        &&& self.at.column <= self.at.pos
    }

    spec fn marked(&self, mark: Mark) -> bool {
        &&& mark.pos <= self.at.pos
        &&& mark.line == line_index(self.source(), mark.pos as int)
        &&& mark.column == column_index(self.source(), mark.pos as int)
    }

    /// A parser at the start of `text`.
    pub fn new(text: &str) -> (parser: Parser)
        ensures
            parser.wf(),
            parser.source() == text@,
            parser.position() == 0,
    {
        let text = rope_from_str(text);
        let _len = rope_len_chars(&text);
        Parser { text, at: Mark { pos: 0, line: 0, column: 0 } }
    }

    /// A parser at the start of the text that a rope holds.
    pub fn over(text: Rope) -> (parser: Parser)
        ensures
            parser.wf(),
            parser.source() == rope_text(text),
            parser.position() == 0,
    {
        let _len = rope_len_chars(&text);
        Parser { text, at: Mark { pos: 0, line: 0, column: 0 } }
    }

    /// Parses the rest of the text into a document and its abstract syntax
    /// tree. This never fails: what cannot be understood becomes an error
    /// node of the tree.
    pub fn parse(&mut self) -> (parsed: Result<(CSTNode, ASTNode), MarkdownError>)
        ensures
            final(self).wf(),
            final(self).source() == old(self).source(),
            final(self).position() == old(self).source().len(),
            parsed matches Ok((cst, ast)) && cst@ == document_from(
                old(self).source(),
                old(self).position(),
            ) && ast@ == cst@.lower(),
    {
        proof {
            use_type_invariant(&*self);
        }
        let cst = self.parse_document();
        let ast = match self.cst_to_ast(&cst) {
            Ok(ast) => ast,
            Err(error) => {
                return Err(error);
            },
        };
        Ok((cst, ast))
    }

    /// Judges a tree by the default rules.
    pub fn validate(&self, node: &CSTNode) -> (outcome: Result<(), MarkdownError>)
        ensures
            exists|rules: Seq<ValidationRule>|
                default_rules(rules) && (outcome is Ok <==> (#[trigger] violations(
                    rules,
                    node@,
                )).len() == 0) && (outcome matches Err(error) ==> error
                    matches MarkdownError::ValidationError(text) && text@ == joined(
                    violations(rules, node@),
                    "\n"@,
                )),
    {
        let mut validator = MarkdownValidator::new();
        let ghost rules = validator.rules();
        let outcome = validator.validate(node);
        assert(default_rules(rules) && (outcome is Ok <==> violations(rules, node@).len() == 0));
        outcome
    }

    /// Writes a tree as text in a style.
    pub fn format(&self, node: &CSTNode, options: FormattingOptions) -> (text: Result<
        String,
        MarkdownError,
    >)
        ensures
            text is Ok <==> renderable(node@),
            text matches Ok(written) ==> written@ == rendered(node@, options),
            text matches Err(error) ==> error matches MarkdownError::FormattingError(reason)
                && reason@ == no_rule_message(),
    {
        let mut formatter = MarkdownFormatter::new(options);
        formatter.format(node)
    }

    /// Whether the whole text has been read.
    fn is_eof(&self) -> (eof: bool)
        requires
            self.wf(),
        ensures
            eof == (self.at.pos >= self.source().len()),
    {
        self.at.pos >= rope_len_chars(&self.text)
    }

    /// The next character, or the null character at the end of the text.
    fn peek_char(&self) -> (c: char)
        requires
            self.wf(),
        ensures
            c == char_at(self.source(), self.at.pos as int),
    {
        if self.at.pos >= rope_len_chars(&self.text) {
            '\0'
        } else {
            rope_char(&self.text, self.at.pos)
        }
    }

    /// The character behind the next one, or the null character where the
    /// text ends before it.
    fn peek_next_char(&self) -> (c: char)
        requires
            self.wf(),
        ensures
            c == char_at(self.source(), self.at.pos + 1),
    {
        let len = rope_len_chars(&self.text);
        if self.at.pos >= len {
            '\0'
        } else if self.at.pos + 1 >= len {
            '\0'
        } else {
            rope_char(&self.text, self.at.pos + 1)
        }
    }

    /// Reads the next character and keeps count of line and column.
    fn consume_char(&mut self) -> (c: char)
        requires
            old(self).wf(),
            old(self).at.pos < old(self).source().len(),
        ensures
            final(self).wf(),
            final(self).text == old(self).text,
            final(self).at.pos == old(self).at.pos + 1,
            c == old(self).source()[old(self).at.pos as int],
    {
        let c = rope_char(&self.text, self.at.pos);
        self.at = if c == '\n' {
            Mark { pos: self.at.pos + 1, line: self.at.line + 1, column: 0 }
        } else {
            Mark { pos: self.at.pos + 1, line: self.at.line, column: self.at.column + 1 }
        };
        c
    }

    /// The place at which the parser stands.
    fn mark(&self) -> (mark: Mark)
        requires
            self.wf(),
        ensures
            self.marked(mark),
            mark.pos == self.at.pos,
    {
        self.at
    }

    /// The span from a place that was marked up to where the parser stands.
    fn span_since(&self, mark: Mark) -> (span: Span)
        requires
            self.wf(),
            self.marked(mark),
        ensures
            span == span_at(self.source(), mark.pos as int, self.at.pos as int),
    {
        Span::new(mark.pos, self.at.pos, count_from_one(mark.line), count_from_one(mark.column))
    }

    /// Where the run of `*` at the current position ends; nothing is read.
    fn star_run_end(&self) -> (end: usize)
        requires
            self.wf(),
        ensures
            end == star_run_end(self.source(), self.at.pos as int),
            self.at.pos <= end <= self.source().len(),
    {
        let len = rope_len_chars(&self.text);
        let mut end = self.at.pos;
        let mut more = end < len && rope_char(&self.text, end) == '*';
        while more
            invariant
                self.at.pos <= end <= len,
                len == self.source().len(),
                more == (end < len && self.source()[end as int] == '*'),
                star_run_end(self.source(), end as int) == star_run_end(
                    self.source(),
                    self.at.pos as int,
                ),
            decreases len - end,
        {
            end += 1;
            more = end < len && rope_char(&self.text, end) == '*';
        }
        end
    }

    /// Reads blocks up to the end of the text.
    pub(crate) fn parse_document(&mut self) -> (node: CSTNode)
        ensures
            final(self).wf(),
            final(self).source() == old(self).source(),
            final(self).position() == old(self).source().len(),
            node@ == document_from(old(self).source(), old(self).position()),
    {
        proof {
            use_type_invariant(&*self);
        }
        let mark = self.mark();
        let mut nodes: Vec<CSTNode> = Vec::new();
        let ghost text = self.source();
        assert(cst_views(nodes@) + blocks_from(text, self.at.pos as int) =~= blocks_from(
            text,
            mark.pos as int,
        ));
        while !self.is_eof()
            invariant
                self.wf(),
                self.text == old(self).text,
                text == self.source(),
                self.marked(mark),
                mark.pos == old(self).at.pos,
                cst_views(nodes@) + blocks_from(text, self.at.pos as int) == blocks_from(
                    text,
                    mark.pos as int,
                ),
            decreases text.len() - self.at.pos,
        {
            let ghost before = cst_views(nodes@);
            let ghost here = self.at.pos as int;
            if self.peek_char() == '\n' {
                self.consume_char();
            } else {
                let stars = self.star_run_end();
                let len = rope_len_chars(&self.text);
                let marked = self.at.pos < stars && stars < len && char_is_blank(
                    rope_char(&self.text, stars),
                );
                let node = if marked {
                    self.parse_heading()
                } else {
                    self.parse_paragraph()
                };
                nodes.push(node);
                assert(cst_views(nodes@) =~= before.push(node@));
                assert(blocks_from(text, here) =~= seq![node@] + blocks_from(text, self.at.pos as int));
                assert(cst_views(nodes@) + blocks_from(text, self.at.pos as int) =~= before
                    + blocks_from(text, here));
            }
        }
        assert(cst_views(nodes@) =~= blocks_from(text, mark.pos as int));
        let span = self.span_since(mark);
        let node = CSTNode::Document { children: nodes, span };
        assert(node@->Document_children =~= blocks_from(text, mark.pos as int));
        node
    }

    /// Reads a heading: up to six markers, then the white space behind them
    /// and one inline node, or the markers beyond the sixth as an error node.
    fn parse_heading(&mut self) -> (node: CSTNode)
        requires
            old(self).wf(),
            marks_heading(old(self).source(), old(self).at.pos as int),
        ensures
            final(self).wf(),
            final(self).text == old(self).text,
            final(self).at.pos > old(self).at.pos,
            (node@, final(self).at.pos as int) == heading_at(old(self).source(), old(self).at.pos as int),
    {
        let mark = self.mark();
        let ghost text = self.source();
        let ghost run = star_run_end(text, mark.pos as int);
        let mut level: u8 = 0;
        let mut more = level < 6 && self.peek_char() == '*';
        while more
            invariant
                self.wf(),
                self.text == old(self).text,
                text == self.source(),
                self.marked(mark),
                mark.pos == old(self).at.pos,
                level == self.at.pos - mark.pos,
                level <= 6,
                run < text.len(),
                self.at.pos <= run,
                star_run_end(text, self.at.pos as int) == run,
                more == (level < 6 && char_at(text, self.at.pos as int) == '*'),
            decreases 6 - level,
        {
            self.consume_char();
            level += 1;
            proof {
                lemma_star_run_end_bounds(text, self.at.pos as int);
            }
            more = level < 6 && self.peek_char() == '*';
        }
        assert(self.at.pos == level_end(text, mark.pos as int));
        let markers;
        let content;
        if self.peek_char() == '*' {
            markers = self.span_since(mark);
            content = self.parse_excess();
        } else {
            let mut more = !self.is_eof() && char_is_blank(self.peek_char());
            let ghost stars = self.at.pos;
            while more
                invariant
                    self.wf(),
                    self.text == old(self).text,
                    text == self.source(),
                    self.marked(mark),
                    stars <= self.at.pos,
                    blank_run_end(text, self.at.pos as int) == blank_run_end(text, stars as int),
                    more == (self.at.pos < text.len() && is_blank(text[self.at.pos as int])),
                decreases text.len() - self.at.pos,
            {
                self.consume_char();
                more = !self.is_eof() && char_is_blank(self.peek_char());
            }
            assert(self.at.pos == blank_run_end(text, stars as int));
            markers = self.span_since(mark);
            content = self.parse_inline();
        }
        let span = self.span_since(mark);
        let mut items: Vec<CSTNode> = Vec::new();
        items.push(content);
        let node = CSTNode::Heading { level, content: items, markers, span };
        assert(node@->Heading_content =~= seq![content@]);
        node
    }

    /// Reads the heading markers beyond the sixth into an error node.
    fn parse_excess(&mut self) -> (node: CSTNode)
        requires
            old(self).wf(),
            char_at(old(self).source(), old(self).at.pos as int) == '*',
        ensures
            final(self).wf(),
            final(self).text == old(self).text,
            final(self).at.pos > old(self).at.pos,
            (node@, final(self).at.pos as int) == excess_at(old(self).source(), old(self).at.pos as int),
    {
        let mark = self.mark();
        let ghost text = self.source();
        let ghost stars = star_run_end(text, mark.pos as int);
        let mut run = String::new();
        let mut more = self.peek_char() == '*';
        assert(run@ =~= text.subrange(mark.pos as int, self.at.pos as int));
        proof {
            lemma_star_run_end_bounds(text, mark.pos as int);
        }
        while more
            invariant
                self.wf(),
                self.text == old(self).text,
                text == self.source(),
                self.marked(mark),
                mark.pos == old(self).at.pos,
                self.at.pos <= stars <= text.len(),
                more ==> self.at.pos < text.len(),
                !more ==> self.at.pos > mark.pos,
                star_run_end(text, self.at.pos as int) == stars,
                run@ == text.subrange(mark.pos as int, self.at.pos as int),
                more == (char_at(text, self.at.pos as int) == '*'),
            decreases text.len() - self.at.pos,
        {
            let c = self.consume_char();
            push_char(&mut run, c);
            assert(run@ =~= text.subrange(mark.pos as int, self.at.pos as int));
            proof {
                lemma_star_run_end_bounds(text, self.at.pos as int);
            }
            more = self.peek_char() == '*';
        }
        let span = self.span_since(mark);
        let mut hints: Vec<String> = Vec::new();
        hints.push("use at most six `*` in front of the heading text".to_owned());
        let error = SyntaxError {
            span,
            message: "heading nested deeper than six levels".to_owned(),
            hints,
        };
        assert(error@.hints =~= seq![overlong_hint()]);
        CSTNode::Error { text: run, error }
    }

    /// Reads inline nodes up to the end of the line.
    fn parse_paragraph(&mut self) -> (node: CSTNode)
        requires
            old(self).wf(),
            old(self).at.pos < old(self).source().len(),
            old(self).source()[old(self).at.pos as int] != '\n',
        ensures
            final(self).wf(),
            final(self).text == old(self).text,
            final(self).at.pos > old(self).at.pos,
            (node@, final(self).at.pos as int) == paragraph_at(old(self).source(), old(self).at.pos as int),
    {
        let mark = self.mark();
        let ghost text = self.source();
        let mut nodes: Vec<CSTNode> = Vec::new();
        let mut more = !self.is_eof() && self.peek_char() != '\n';
        assert(cst_views(nodes@) + paragraph_items(text, self.at.pos as int).0 =~= paragraph_items(
            text,
            mark.pos as int,
        ).0);
        while more
            invariant
                self.wf(),
                self.text == old(self).text,
                text == self.source(),
                self.marked(mark),
                mark.pos == old(self).at.pos,
                more == (self.at.pos < text.len() && text[self.at.pos as int] != '\n'),
                !more ==> self.at.pos > mark.pos,
                cst_views(nodes@) + paragraph_items(text, self.at.pos as int).0 == paragraph_items(
                    text,
                    mark.pos as int,
                ).0,
                paragraph_items(text, self.at.pos as int).1 == paragraph_items(text, mark.pos as int).1,
            decreases text.len() - self.at.pos,
        {
            let ghost before = cst_views(nodes@);
            let ghost here = self.at.pos as int;
            let node = self.parse_inline();
            nodes.push(node);
            assert(cst_views(nodes@) =~= before.push(node@));
            assert(paragraph_items(text, here).0 =~= seq![node@] + paragraph_items(
                text,
                self.at.pos as int,
            ).0);
            assert(cst_views(nodes@) + paragraph_items(text, self.at.pos as int).0 =~= before
                + paragraph_items(text, here).0);
            more = !self.is_eof() && self.peek_char() != '\n';
        }
        assert(cst_views(nodes@) =~= paragraph_items(text, mark.pos as int).0);
        let span = self.span_since(mark);
        let node = CSTNode::Paragraph { content: nodes, span };
        assert(node@->Paragraph_content =~= paragraph_items(text, mark.pos as int).0);
        node
    }

    /// Reads one inline node: bold, italic, a line break or text.
    fn parse_inline(&mut self) -> (node: CSTNode)
        requires
            old(self).wf(),
        ensures
            final(self).wf(),
            final(self).text == old(self).text,
            old(self).at.pos < old(self).source().len() ==> final(self).at.pos > old(self).at.pos,
            (node@, final(self).at.pos as int) == inline_at(old(self).source(), old(self).at.pos as int),
        decreases old(self).source().len() - old(self).at.pos, 2nat,
    {
        if self.is_eof() {
            return self.parse_text();
        }
        let c = self.peek_char();
        if c == '*' || c == '_' || c == '/' {
            if self.peek_next_char() == c {
                self.parse_bold()
            } else {
                self.parse_italic()
            }
        } else if c == '\n' {
            let mark = self.mark();
            self.consume_char();
            let span = self.span_since(mark);
            CSTNode::LineBreak { span }
        } else {
            self.parse_text()
        }
    }

    /// Reads a bold node: the doubled marker, inline nodes, and the doubled
    /// marker again if the text does not end before it.
    fn parse_bold(&mut self) -> (node: CSTNode)
        requires
            old(self).wf(),
            old(self).at.pos + 1 < old(self).source().len(),
            is_emphasis_marker(old(self).source()[old(self).at.pos as int]),
            old(self).source()[old(self).at.pos + 1] == old(self).source()[old(self).at.pos as int],
        ensures
            final(self).wf(),
            final(self).text == old(self).text,
            final(self).at.pos > old(self).at.pos,
            (node@, final(self).at.pos as int) == emphasis_at(
                old(self).source(),
                old(self).at.pos as int,
                true,
            ),
        decreases old(self).source().len() - old(self).at.pos, 1nat,
    {
        let mark = self.mark();
        let ghost text = self.source();
        let marker = self.peek_char();
        self.consume_char();
        self.consume_char();
        let ghost opened = self.at.pos as int;
        let markers = self.span_since(mark);
        let mut content: Vec<CSTNode> = Vec::new();
        let mut more = !self.is_eof() && !(self.peek_char() == marker && self.peek_next_char()
            == marker);
        assert(cst_views(content@) + emphasis_items(text, self.at.pos as int, marker, true).0
            =~= emphasis_items(text, opened, marker, true).0);
        while more
            invariant
                self.wf(),
                self.text == old(self).text,
                text == self.source(),
                self.marked(mark),
                mark.pos == old(self).at.pos,
                opened <= self.at.pos,
                opened == mark.pos + 2,
                is_emphasis_marker(marker),
                more == (self.at.pos < text.len() && !closes_emphasis(
                    text,
                    self.at.pos as int,
                    marker,
                    true,
                )),
                cst_views(content@) + emphasis_items(text, self.at.pos as int, marker, true).0
                    == emphasis_items(text, opened, marker, true).0,
                emphasis_items(text, self.at.pos as int, marker, true).1 == emphasis_items(
                    text,
                    opened,
                    marker,
                    true,
                ).1,
            decreases text.len() - self.at.pos,
        {
            let ghost before = cst_views(content@);
            let ghost here = self.at.pos as int;
            let node = self.parse_inline();
            content.push(node);
            assert(cst_views(content@) =~= before.push(node@));
            assert(emphasis_items(text, here, marker, true).0 =~= seq![node@] + emphasis_items(
                text,
                self.at.pos as int,
                marker,
                true,
            ).0);
            assert(cst_views(content@) + emphasis_items(text, self.at.pos as int, marker, true).0
                =~= before + emphasis_items(text, here, marker, true).0);
            more = !self.is_eof() && !(self.peek_char() == marker && self.peek_next_char()
                == marker);
        }
        assert(cst_views(content@) =~= emphasis_items(text, opened, marker, true).0);
        if !self.is_eof() {
            self.consume_char();
            self.consume_char();
        }
        let span = self.span_since(mark);
        let node = CSTNode::Bold { content, markers, span };
        assert(node@->Bold_content =~= emphasis_items(text, opened, marker, true).0);
        node
    }

    /// Reads an italic node: the marker, inline nodes, and the marker again
    /// if the text does not end before it.
    fn parse_italic(&mut self) -> (node: CSTNode)
        requires
            old(self).wf(),
            old(self).at.pos < old(self).source().len(),
            is_emphasis_marker(old(self).source()[old(self).at.pos as int]),
        ensures
            final(self).wf(),
            final(self).text == old(self).text,
            final(self).at.pos > old(self).at.pos,
            (node@, final(self).at.pos as int) == emphasis_at(
                old(self).source(),
                old(self).at.pos as int,
                false,
            ),
        decreases old(self).source().len() - old(self).at.pos, 1nat,
    {
        let mark = self.mark();
        let ghost text = self.source();
        let marker = self.peek_char();
        self.consume_char();
        let ghost opened = self.at.pos as int;
        let markers = self.span_since(mark);
        let mut content: Vec<CSTNode> = Vec::new();
        let mut more = !self.is_eof() && self.peek_char() != marker;
        assert(cst_views(content@) + emphasis_items(text, self.at.pos as int, marker, false).0
            =~= emphasis_items(text, opened, marker, false).0);
        while more
            invariant
                self.wf(),
                self.text == old(self).text,
                text == self.source(),
                self.marked(mark),
                mark.pos == old(self).at.pos,
                opened <= self.at.pos,
                opened == mark.pos + 1,
                is_emphasis_marker(marker),
                more == (self.at.pos < text.len() && !closes_emphasis(
                    text,
                    self.at.pos as int,
                    marker,
                    false,
                )),
                cst_views(content@) + emphasis_items(text, self.at.pos as int, marker, false).0
                    == emphasis_items(text, opened, marker, false).0,
                emphasis_items(text, self.at.pos as int, marker, false).1 == emphasis_items(
                    text,
                    opened,
                    marker,
                    false,
                ).1,
            decreases text.len() - self.at.pos,
        {
            let ghost before = cst_views(content@);
            let ghost here = self.at.pos as int;
            let node = self.parse_inline();
            content.push(node);
            assert(cst_views(content@) =~= before.push(node@));
            assert(emphasis_items(text, here, marker, false).0 =~= seq![node@] + emphasis_items(
                text,
                self.at.pos as int,
                marker,
                false,
            ).0);
            assert(cst_views(content@) + emphasis_items(text, self.at.pos as int, marker, false).0
                =~= before + emphasis_items(text, here, marker, false).0);
            more = !self.is_eof() && self.peek_char() != marker;
        }
        assert(cst_views(content@) =~= emphasis_items(text, opened, marker, false).0);
        if !self.is_eof() {
            self.consume_char();
        }
        let span = self.span_since(mark);
        let node = CSTNode::Italic { content, markers, span };
        assert(node@->Italic_content =~= emphasis_items(text, opened, marker, false).0);
        node
    }

    /// Reads text up to the next marker or line feed.
    fn parse_text(&mut self) -> (node: CSTNode)
        requires
            old(self).wf(),
        ensures
            final(self).wf(),
            final(self).text == old(self).text,
            old(self).at.pos < old(self).source().len() && !ends_text(
                old(self).source()[old(self).at.pos as int],
            ) ==> final(self).at.pos > old(self).at.pos,
            (node@, final(self).at.pos as int) == text_at(old(self).source(), old(self).at.pos as int),
    {
        let mark = self.mark();
        let ghost text = self.source();
        let mut content = String::new();
        assert(content@ =~= text.subrange(mark.pos as int, self.at.pos as int));
        loop
            invariant
                self.wf(),
                self.text == old(self).text,
                text == self.source(),
                self.marked(mark),
                mark.pos == old(self).at.pos,
                content@ == text.subrange(mark.pos as int, self.at.pos as int),
                text_run_end(text, self.at.pos as int) == text_run_end(text, mark.pos as int),
            ensures
                self.at.pos == text_run_end(text, mark.pos as int),
                self.at.pos == mark.pos ==> self.at.pos >= text.len() || ends_text(
                    text[self.at.pos as int],
                ),
            decreases text.len() - self.at.pos,
        {
            if self.is_eof() {
                break;
            }
            let c = self.peek_char();
            if c == '*' || c == '_' || c == '/' || c == '\n' {
                break;
            }
            let c = self.consume_char();
            push_char(&mut content, c);
            assert(content@ =~= text.subrange(mark.pos as int, self.at.pos as int));
        }
        let span = self.span_since(mark);
        CSTNode::Text { content, span }
    }

    /// The abstract syntax tree of a concrete one. Every node has a
    /// counterpart, so this never fails.
    fn cst_to_ast(&self, cst: &CSTNode) -> (ast: Result<ASTNode, MarkdownError>)
        ensures
            ast matches Ok(tree) && tree@ == cst@.lower(),
    {
        Ok(cst.to_ast())
    }
}

/// Whether a node can stand inside a line: text, a line break, or bold or
/// italic text made of such nodes.
pub open spec fn is_inline(node: Cst) -> bool
    decreases node,
{
    match node {
        Cst::Text { .. } => true,
        Cst::LineBreak { .. } => true,
        Cst::Bold { content, .. } => forall|i: int|
            0 <= i < content.len() ==> is_inline(#[trigger] content[i]),
        Cst::Italic { content, .. } => forall|i: int|
            0 <= i < content.len() ==> is_inline(#[trigger] content[i]),
        _ => false,
    }
}

/// Whether every node of a sequence can stand inside a line.
pub open spec fn all_inline(nodes: Seq<Cst>) -> bool {
    forall|i: int| 0 <= i < nodes.len() ==> is_inline(#[trigger] nodes[i])
}

/// Whether a node is a block as the parser makes them: a heading of a level
/// from one to six whose body is one inline node or one error node, or a
/// paragraph of inline nodes.
pub open spec fn is_block(node: Cst) -> bool {
    match node {
        Cst::Heading { level, content, .. } => 1 <= level <= 6 && content.len() == 1 && (is_inline(
            content[0],
        ) || content[0] is Error),
        Cst::Paragraph { content, .. } => content.len() >= 1 && all_inline(content),
        _ => false,
    }
}

/// Whether every node of a sequence is a block.
pub open spec fn all_blocks(nodes: Seq<Cst>) -> bool {
    forall|i: int| 0 <= i < nodes.len() ==> is_block(#[trigger] nodes[i])
}

/// An inline node ends within the text, behind its start unless the text has
/// ended, and is made of inline nodes only.
pub proof fn lemma_inline_at(text: Seq<char>, pos: int)
    requires
        0 <= pos <= text.len(),
    ensures
        pos <= inline_at(text, pos).1 <= text.len(),
        pos < text.len() ==> pos < inline_at(text, pos).1,
        is_inline(inline_at(text, pos).0),
    decreases text.len() - pos, 2nat,
{
    lemma_text_run_end_bounds(text, pos);
    if pos < text.len() {
        lemma_text_run_end_bounds(text, pos + 1);
    }
    if pos < text.len() && is_emphasis_marker(text[pos]) {
        lemma_emphasis_at(text, pos, char_at(text, pos + 1) == text[pos]);
    }
}

/// A bold or italic node ends within the text, behind its start, and is made
/// of inline nodes only.
pub proof fn lemma_emphasis_at(text: Seq<char>, pos: int, double: bool)
    requires
        0 <= pos < text.len(),
        double ==> pos + 1 < text.len(),
    ensures
        pos < emphasis_at(text, pos, double).1 <= text.len(),
        is_inline(emphasis_at(text, pos, double).0),
        double ==> emphasis_at(text, pos, double).0 is Bold,
        !double ==> emphasis_at(text, pos, double).0 is Italic,
    decreases text.len() - pos, 1nat,
{
    let width: int = if double {
        2
    } else {
        1
    };
    lemma_emphasis_items(text, pos + width, text[pos], double);
}

/// The nodes inside a bold or italic node end within the text, at the closing
/// marker or at the end of the text, and are inline nodes.
pub proof fn lemma_emphasis_items(text: Seq<char>, pos: int, marker: char, double: bool)
    requires
        0 <= pos <= text.len(),
    ensures
        pos <= emphasis_items(text, pos, marker, double).1 <= text.len(),
        all_inline(emphasis_items(text, pos, marker, double).0),
        emphasis_items(text, pos, marker, double).1 == text.len() || closes_emphasis(
            text,
            emphasis_items(text, pos, marker, double).1,
            marker,
            double,
        ),
    decreases text.len() - pos, 3nat,
{
    if pos < text.len() && !closes_emphasis(text, pos, marker, double) {
        lemma_inline_at(text, pos);
        let (first, next) = inline_at(text, pos);
        lemma_emphasis_items(text, next, marker, double);
        let (rest, end) = emphasis_items(text, next, marker, double);
        let items = seq![first] + rest;
        assert(emphasis_items(text, pos, marker, double).0 == items);
        assert forall|i: int| 0 <= i < items.len() implies is_inline(#[trigger] items[i]) by {
            if i > 0 {
                assert(items[i] == rest[i - 1]);
            }
        }
    }
}

/// The nodes of a paragraph end within the text, at the end of the line, and
/// are inline nodes; there is one at least where the line is not empty.
pub proof fn lemma_paragraph_items(text: Seq<char>, pos: int)
    requires
        0 <= pos <= text.len(),
    ensures
        pos <= paragraph_items(text, pos).1 <= text.len(),
        all_inline(paragraph_items(text, pos).0),
        paragraph_items(text, pos).1 == text.len() || text[paragraph_items(text, pos).1] == '\n',
        pos < text.len() && text[pos] != '\n' ==> pos < paragraph_items(text, pos).1
            && paragraph_items(text, pos).0.len() >= 1,
    decreases text.len() - pos,
{
    if pos < text.len() && text[pos] != '\n' {
        lemma_inline_at(text, pos);
        let (first, next) = inline_at(text, pos);
        lemma_paragraph_items(text, next);
        let (rest, end) = paragraph_items(text, next);
        let items = seq![first] + rest;
        assert(paragraph_items(text, pos).0 == items);
        assert forall|i: int| 0 <= i < items.len() implies is_inline(#[trigger] items[i]) by {
            if i > 0 {
                assert(items[i] == rest[i - 1]);
            }
        }
    }
}

/// Every child of a parsed document is a block.
pub proof fn lemma_blocks(text: Seq<char>, pos: int)
    requires
        0 <= pos <= text.len(),
    ensures
        all_blocks(blocks_from(text, pos)),
    decreases text.len() - pos,
{
    if pos < text.len() {
        if text[pos] == '\n' {
            lemma_blocks(text, pos + 1);
        } else {
            lemma_star_run_end_bounds(text, pos);
            let (block, next) = if marks_heading(text, pos) {
                heading_at(text, pos)
            } else {
                paragraph_at(text, pos)
            };
            if marks_heading(text, pos) {
                let stars = level_end(text, pos);
                if stars < star_run_end(text, pos) {
                    lemma_star_run_end_bounds(text, stars);
                    assert(star_run_end(text, stars) > stars) by {
                        lemma_star_run_end_bounds(text, stars + 1);
                        lemma_inside_star_run(text, pos, stars);
                    }
                } else {
                    lemma_blank_run_end_bounds(text, stars);
                    lemma_inline_at(text, blank_run_end(text, stars));
                }
            } else {
                lemma_paragraph_items(text, pos);
            }
            assert(is_block(block));
            assert(pos < next <= text.len());
            lemma_blocks(text, next);
            let rest = blocks_from(text, next);
            let blocks = seq![block] + rest;
            assert(blocks_from(text, pos) == blocks);
            assert forall|i: int| 0 <= i < blocks.len() implies is_block(#[trigger] blocks[i]) by {
                if i > 0 {
                    assert(blocks[i] == rest[i - 1]);
                }
            }
        }
    }
}

/// Inside a run of `*` every character is a `*`, and the run ends where it
/// ends from its start.
pub proof fn lemma_inside_star_run(text: Seq<char>, pos: int, inside: int)
    requires
        0 <= pos <= inside < star_run_end(text, pos),
    ensures
        inside < text.len(),
        text[inside] == '*',
        star_run_end(text, inside) == star_run_end(text, pos),
    decreases inside - pos,
{
    lemma_star_run_end_bounds(text, pos);
    if pos < inside {
        lemma_inside_star_run(text, pos + 1, inside);
    }
}

/// Everything inside an inline node is an inline node.
pub proof fn lemma_inline_preorder(node: Cst)
    requires
        is_inline(node),
    ensures
        all_inline(node.preorder()),
    decreases node,
{
    let kids = node.children();
    let below = preorder_all(kids, kids.len());
    assert(node.preorder() =~= seq![node] + below);
    lemma_preorder_all_members(kids, kids.len());
    assert forall|i: int| 0 <= i < node.preorder().len() implies is_inline(
        #[trigger] node.preorder()[i],
    ) by {
        if i > 0 {
            let item = below[i - 1];
            assert(below.contains(item));
            let k = choose|k: int|
                0 <= k < kids.len() && k < kids.len() && kids[k].preorder().contains(item);
            assert(is_inline(kids[k]));
            lemma_inline_preorder(kids[k]);
            let j = choose|j: int| 0 <= j < kids[k].preorder().len() && kids[k].preorder()[j] == item;
            assert(is_inline(kids[k].preorder()[j]));
        }
    }
}

/// Below a block there are inline nodes and, as the body of a heading, an
/// error node; below a paragraph there are inline nodes only.
pub proof fn lemma_block_preorder(node: Cst)
    requires
        is_block(node),
    ensures
        node.preorder().len() >= 1,
        node.preorder()[0] == node,
        forall|i: int|
            1 <= i < node.preorder().len() ==> is_inline(#[trigger] node.preorder()[i])
                || node.preorder()[i] is Error,
        node is Paragraph ==> forall|i: int|
            1 <= i < node.preorder().len() ==> is_inline(#[trigger] node.preorder()[i]),
{
    let kids = node.children();
    let below = preorder_all(kids, kids.len());
    assert(node.preorder() =~= seq![node] + below);
    lemma_preorder_all_members(kids, kids.len());
    assert forall|i: int| 1 <= i < node.preorder().len() implies (is_inline(
        #[trigger] node.preorder()[i],
    ) || node.preorder()[i] is Error) && (node is Paragraph ==> is_inline(node.preorder()[i])) by {
        let item = below[i - 1];
        assert(below.contains(item));
        let k = choose|k: int|
            0 <= k < kids.len() && k < kids.len() && kids[k].preorder().contains(item);
        let j = choose|j: int| 0 <= j < kids[k].preorder().len() && kids[k].preorder()[j] == item;
        if is_inline(kids[k]) {
            lemma_inline_preorder(kids[k]);
            assert(is_inline(kids[k].preorder()[j]));
        } else {
            assert(kids[k] is Error);
            assert(kids[k].preorder() =~= seq![kids[k]]);
        }
    }
}

/// In a parsed document every node but the root is a block, an inline node
/// or the error node of a heading.
pub proof fn lemma_document_preorder(text: Seq<char>)
    ensures
        document_of(text).preorder().len() >= 1,
        document_of(text).preorder()[0] == document_of(text),
        forall|i: int|
            1 <= i < document_of(text).preorder().len() ==> is_block(
                #[trigger] document_of(text).preorder()[i],
            ) || is_inline(document_of(text).preorder()[i]) || document_of(text).preorder()[i]
                is Error,
{
    let document = document_of(text);
    let blocks = blocks_from(text, 0);
    let below = preorder_all(blocks, blocks.len());
    lemma_blocks(text, 0);
    assert(document.preorder() =~= seq![document] + below);
    lemma_preorder_all_members(blocks, blocks.len());
    assert forall|i: int| 1 <= i < document.preorder().len() implies is_block(
        #[trigger] document.preorder()[i],
    ) || is_inline(document.preorder()[i]) || document.preorder()[i] is Error by {
        let item = below[i - 1];
        assert(below.contains(item));
        let k = choose|k: int|
            0 <= k < blocks.len() && k < blocks.len() && blocks[k].preorder().contains(item);
        assert(is_block(blocks[k]));
        lemma_block_preorder(blocks[k]);
        let j = choose|j: int|
            0 <= j < blocks[k].preorder().len() && blocks[k].preorder()[j] == item;
        if j > 0 {
            assert(is_inline(blocks[k].preorder()[j]) || blocks[k].preorder()[j] is Error);
        }
    }
}

/// Every heading of a parsed document is of a level from one to six and has
/// content.
pub proof fn law_parsed_headings(text: Seq<char>)
    ensures
        forall|i: int|
            0 <= i < document_of(text).preorder().len() ==> (
            #[trigger] document_of(text).preorder()[i] matches Cst::Heading { level, content, .. }
                ==> 1 <= level <= 6 && content.len() == 1),
{
    lemma_document_preorder(text);
}

/// Looking for the headings of a parsed document finds nodes that are
/// headings of a level from one to six, as many as the document has.
pub proof fn law_found_headings(text: Seq<char>)
    ensures
        forall|i: int|
            0 <= i < document_of(text).preorder().filter(of_kind(SyntaxKind::Heading)).len() ==> (
            #[trigger] document_of(text).preorder().filter(of_kind(SyntaxKind::Heading))[i]
                matches Cst::Heading { level, .. } && 1 <= level <= 6),
{
    let listing = document_of(text).preorder();
    let wanted = of_kind(SyntaxKind::Heading);
    let found = listing.filter(wanted);
    law_parsed_headings(text);
    lemma_filter_subset(listing, wanted);
    assert forall|i: int| 0 <= i < found.len() implies (#[trigger] found[i] matches Cst::Heading {
        level,
        ..
    } && 1 <= level <= 6) by {
        listing.lemma_filter_pred(wanted, i);
        assert(wanted(found[i]));
        let k = choose|k: int| 0 <= k < listing.len() && listing[k] == found[i];
        assert(listing[k] is Heading);
    }
}

/// Whether a text holds none of the characters that mark bold and italic
/// text, among them the `*` of headings.
pub open spec fn marker_free(text: Seq<char>) -> bool {
    forall|i: int| 0 <= i < text.len() ==> !is_emphasis_marker(#[trigger] text[i])
}

/// Whether a node is a paragraph that holds one text node and nothing else.
pub open spec fn is_plain_paragraph(node: Cst) -> bool {
    node matches Cst::Paragraph { content, .. } && content.len() == 1 && content[0] is Text
}

/// In a text without markers a run of plain text ends at a line feed or at
/// the end, and holds plain text only.
pub proof fn lemma_marker_free_run(text: Seq<char>, pos: int)
    requires
        marker_free(text),
        0 <= pos <= text.len(),
    ensures
        pos <= text_run_end(text, pos) <= text.len(),
        text_run_end(text, pos) == text.len() || text[text_run_end(text, pos)] == '\n',
        forall|i: int| pos <= i < text_run_end(text, pos) ==> !ends_text(#[trigger] text[i]),
    decreases text.len() - pos,
{
    if pos < text.len() && !ends_text(text[pos]) {
        lemma_marker_free_run(text, pos + 1);
    }
}

/// The blocks of a text without markers are paragraphs of one text node each.
pub proof fn lemma_marker_free_blocks(text: Seq<char>, pos: int)
    requires
        marker_free(text),
        0 <= pos <= text.len(),
    ensures
        forall|i: int|
            0 <= i < blocks_from(text, pos).len() ==> is_plain_paragraph(
                #[trigger] blocks_from(text, pos)[i],
            ),
    decreases text.len() - pos,
{
    if pos < text.len() {
        if text[pos] == '\n' {
            lemma_marker_free_blocks(text, pos + 1);
            assert(blocks_from(text, pos) == blocks_from(text, pos + 1));
        } else {
            assert(!is_emphasis_marker(text[pos]));
            assert(star_run_end(text, pos) == pos);
            assert(!marks_heading(text, pos));
            lemma_text_run_end_bounds(text, pos + 1);
            lemma_text_run_end_bounds(text, pos);
            lemma_marker_free_run(text, pos);
            let (first, next) = inline_at(text, pos);
            assert(first is Text);
            assert(next == text_run_end(text, pos));
            assert(paragraph_items(text, next).0 =~= Seq::<Cst>::empty());
            assert(paragraph_items(text, pos).0 =~= seq![first]);
            let (block, end) = paragraph_at(text, pos);
            assert(is_plain_paragraph(block));
            assert(end == next);
            lemma_marker_free_blocks(text, next);
            let rest = blocks_from(text, next);
            let blocks = seq![block] + rest;
            assert(blocks_from(text, pos) == blocks);
            assert forall|i: int| 0 <= i < blocks.len() implies is_plain_paragraph(
                #[trigger] blocks[i],
            ) by {
                if i > 0 {
                    assert(blocks[i] == rest[i - 1]);
                }
            }
        }
    } else {
        assert(blocks_from(text, pos) =~= Seq::<Cst>::empty());
    }
}

/// A text without markers parses to a document of paragraphs, each of one
/// text node: the document spans the whole text and holds no error node.
pub proof fn law_marker_free_text(text: Seq<char>)
    requires
        marker_free(text),
        text.len() <= usize::MAX,
    ensures
        document_of(text) matches Cst::Document { children, span } && span == (Span {
            start: 0,
            end: text.len() as usize,
            line: 1,
            column: 1,
        }) && forall|i: int| 0 <= i < children.len() ==> is_plain_paragraph(#[trigger] children[i]),
        renderable(document_of(text)),
{
    lemma_marker_free_blocks(text, 0);
    lemma_document_preorder(text);
    let document = document_of(text);
    let blocks = blocks_from(text, 0);
    let below = preorder_all(blocks, blocks.len());
    assert(document.preorder() =~= seq![document] + below);
    lemma_preorder_all_members(blocks, blocks.len());
    assert forall|i: int| 0 <= i < document.preorder().len() implies !(
    #[trigger] document.preorder()[i] is Error) by {
        if i > 0 {
            let item = below[i - 1];
            assert(below.contains(item));
            let k = choose|k: int|
                0 <= k < blocks.len() && k < blocks.len() && blocks[k].preorder().contains(item);
            assert(is_plain_paragraph(blocks[k]));
            lemma_blocks(text, 0);
            lemma_block_preorder(blocks[k]);
            let j = choose|j: int|
                0 <= j < blocks[k].preorder().len() && blocks[k].preorder()[j] == item;
            if j > 0 {
                assert(is_inline(blocks[k].preorder()[j]));
            }
        }
    }
}

/// A run of `*` ends at or behind its start, within the text.
pub proof fn lemma_star_run_end_bounds(text: Seq<char>, pos: int)
    requires
        0 <= pos <= text.len(),
    ensures
        pos <= star_run_end(text, pos) <= text.len(),
    decreases text.len() - pos,
{
    if pos < text.len() && text[pos] == '*' {
        lemma_star_run_end_bounds(text, pos + 1);
    }
}

/// A run of white space ends at or behind its start, within the text.
pub proof fn lemma_blank_run_end_bounds(text: Seq<char>, pos: int)
    requires
        0 <= pos <= text.len(),
    ensures
        pos <= blank_run_end(text, pos) <= text.len(),
    decreases text.len() - pos,
{
    if pos < text.len() && is_blank(text[pos]) {
        lemma_blank_run_end_bounds(text, pos + 1);
    }
}

/// A run of plain text ends at or behind its start, within the text.
pub proof fn lemma_text_run_end_bounds(text: Seq<char>, pos: int)
    requires
        0 <= pos <= text.len(),
    ensures
        pos <= text_run_end(text, pos) <= text.len(),
    decreases text.len() - pos,
{
    if pos < text.len() && !ends_text(text[pos]) {
        lemma_text_run_end_bounds(text, pos + 1);
    }
}

} // verus!
