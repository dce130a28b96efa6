//! A first, coarser reading of the markup: the text is cut at word bounds,
//! and each line of words becomes a heading or a paragraph.

use vstd::prelude::*;
use vstd::string::StrSliceExecFns;
use vstd::utf8::encode_utf8;

use ecow::EcoString;
use unicode_segmentation::UnicodeSegmentation;

use crate::types::{eco_from_str, eco_len, eco_text};

verus! {

/// A stretch of the source, from a byte offset up to another.
#[derive(Debug, Clone, Copy, PartialEq, Eq, Structural)]
pub struct Span {
    pub start: usize,
    pub end: usize,
}

impl Span {
    /// The stretch from `start` up to `end`.
    pub fn new(start: usize, end: usize) -> (span: Span)
        ensures
            span == (Span { start, end }),
    {
        Span { start, end }
    }
}

/// What a word of the source is.
#[derive(Debug, Clone, Copy, PartialEq, Eq, Structural)]
pub enum SyntaxKind {
    HeadingMarker,
    Text,
    Slash,
    Space,
    Asterisk,
    Newline,
}

/// A word of the source, with what it is and the byte offset at which it
/// stands.
#[derive(Debug, Clone)]
pub struct Token {
    pub kind: SyntaxKind,
    pub text: EcoString,
    pub span: usize,
}

/// The model of a [`Token`].
pub struct TokenModel {
    pub kind: SyntaxKind,
    pub text: Seq<char>,
    pub span: usize,
}

impl View for Token {
    type V = TokenModel;

    open spec fn view(&self) -> TokenModel {
        TokenModel { kind: self.kind, text: eco_text(self.text), span: self.span }
    }
}

/// The models of a sequence of tokens, in order.
pub open spec fn token_views(tokens: Seq<Token>) -> Seq<TokenModel> {
    Seq::new(tokens.len(), |i: int| tokens[i]@)
}

impl Token {
    /// A token of a kind, with its text and its offset.
    pub fn new(kind: SyntaxKind, text: EcoString, span: usize) -> (token: Token)
        ensures
            token@ == (TokenModel { kind, text: eco_text(text), span }),
    {
        Token { kind, text, span }
    }

    /// The stretch that the token's text covers when it stands at `span`:
    /// as many bytes as the text has. The stretch has to end within the
    /// range of offsets.
    pub fn to_span(&self, span: usize) -> (covered: Span)
        requires
            span + encode_utf8(self@.text).len() <= usize::MAX,
        ensures
            covered.start == span,
            covered.end == span + encode_utf8(self@.text).len(),
    {
        Span::new(span, span + eco_len(&self.text))
    }

    /// A token with the same kind, text and offset.
    fn copy(&self) -> (token: Token)
        ensures
            token@ == self@,
    {
        Token { kind: self.kind, text: self.text.clone(), span: self.span }
    }
}

/// The pieces of a text between its word bounds, each with the byte offset at
/// which it starts.
pub uninterp spec fn word_bounds(text: Seq<char>) -> Seq<(usize, Seq<char>)>;

/// The offsets and character sequences of a sequence of pieces.
pub open spec fn piece_views(pieces: Seq<(usize, &str)>) -> Seq<(usize, Seq<char>)> {
    Seq::new(pieces.len(), |i: int| (pieces[i].0, pieces[i].1@))
}

/// `UnicodeSegmentation::split_word_bound_indices` of unicode-segmentation:
/// the pieces of the text between its word bounds, with their offsets.
#[verifier::external_body]
fn split_words<'a>(input: &'a str) -> (pieces: Vec<(usize, &'a str)>)
    ensures
        piece_views(pieces@) == word_bounds(input@),
{
    input.split_word_bound_indices().collect()
}

/// What a piece of text is: a space, a `*`, a `/` or a line feed by itself,
/// else text.
pub open spec fn kind_of(text: Seq<char>) -> SyntaxKind {
    if text == seq![' '] {
        SyntaxKind::Space
    } else if text == seq!['*'] {
        SyntaxKind::HeadingMarker
    } else if text == seq!['/'] {
        SyntaxKind::Slash
    } else if text == seq!['\n'] {
        SyntaxKind::Newline
    } else {
        SyntaxKind::Text
    }
}

/// The tokens for a sequence of pieces.
pub open spec fn tokens_of(pieces: Seq<(usize, Seq<char>)>) -> Seq<TokenModel> {
    Seq::new(
        pieces.len(),
        |i: int| TokenModel { kind: kind_of(pieces[i].1), text: pieces[i].1, span: pieces[i].0 },
    )
}

/// What a piece of text is.
fn classify(text: &str) -> (kind: SyntaxKind)
    ensures
        kind == kind_of(text@),
{
    if text.unicode_len() == 1 {
        let c = text.get_char(0);
        assert(text@ =~= seq![c]);
        if c == ' ' {
            SyntaxKind::Space
        } else if c == '*' {
            SyntaxKind::HeadingMarker
        } else if c == '/' {
            SyntaxKind::Slash
        } else if c == '\n' {
            SyntaxKind::Newline
        } else {
            assert(seq![c][0] == c);
            SyntaxKind::Text
        }
    } else {
        SyntaxKind::Text
    }
}

/// The tokens of a text: one for each piece between its word bounds.
pub fn tokenize(input: &str) -> (tokens: Vec<Token>)
    ensures
        token_views(tokens@) == tokens_of(word_bounds(input@)),
{
    tokenize_pieces(&split_words(input))
}

/// The tokens for the pieces of a text.
pub fn tokenize_pieces(pieces: &Vec<(usize, &str)>) -> (tokens: Vec<Token>)
    ensures
        token_views(tokens@) == tokens_of(piece_views(pieces@)),
{
    let mut tokens: Vec<Token> = Vec::new();
    let mut i: usize = 0;
    while i < pieces.len()
        invariant
            i <= pieces.len(),
            tokens@.len() == i,
            forall|j: int|
                0 <= j < i ==> (#[trigger] tokens@[j])@ == tokens_of(piece_views(pieces@))[j],
        decreases pieces.len() - i,
    {
        let (span, text) = pieces[i];
        tokens.push(Token::new(classify(text), eco_from_str(text), span));
        i += 1;
    }
    assert(token_views(tokens@) =~= tokens_of(piece_views(pieces@)));
    tokens
}

/// What a node of the outline is.
#[derive(Debug, Clone, Copy, PartialEq, Eq, Structural)]
pub enum NodeKind {
    Heading,
    Paragraph,
    Text,
}

/// A node of the outline: a line with its words beneath it, or a word.
#[derive(Debug)]
pub struct Node {
    pub kind: NodeKind,
    pub children: Vec<Node>,
    pub token: Option<Token>,
}

/// The model of a [`Node`].
pub struct NodeModel {
    pub kind: NodeKind,
    pub children: Seq<NodeModel>,
    pub token: Option<TokenModel>,
}

impl Node {
    /// The model of this node.
    pub open spec fn model(&self) -> NodeModel
        decreases self,
    {
        NodeModel {
            kind: self.kind,
            children: Seq::new(
                self.children@.len(),
                |i: int|
                    if 0 <= i < self.children@.len() {
                        self.children@[i].model()
                    } else {
                        NodeModel { kind: self.kind, children: Seq::empty(), token: None }
                    },
            ),
            token: match self.token {
                Some(token) => Some(token@),
                None => None,
            },
        }
    }

    /// A node without children.
    pub fn new(kind: NodeKind, token: Option<Token>) -> (node: Node)
        ensures
            node@ == (NodeModel {
                kind,
                children: Seq::empty(),
                token: match token {
                    Some(t) => Some(t@),
                    None => None,
                },
            }),
    {
        let node = Node { kind, children: Vec::new(), token };
        assert(node@.children =~= Seq::empty());
        node
    }
}

impl View for Node {
    type V = NodeModel;

    open spec fn view(&self) -> NodeModel {
        self.model()
    }
}

/// The models of a sequence of nodes, in order.
pub open spec fn node_views(nodes: Seq<Node>) -> Seq<NodeModel> {
    Seq::new(nodes.len(), |i: int| nodes[i]@)
}

/// Where the line that starts at `from` ends: at its line feed, or at the end
/// of the tokens.
pub open spec fn line_end(tokens: Seq<TokenModel>, from: int) -> int
    decreases tokens.len() - from,
{
    if 0 <= from < tokens.len() && tokens[from].kind != SyntaxKind::Newline {
        line_end(tokens, from + 1)
    } else {
        from
    }
}

/// The words from `from` up to `to`, each as a text node.
pub open spec fn word_nodes(tokens: Seq<TokenModel>, from: int, to: int) -> Seq<NodeModel> {
    Seq::new(
        if to >= from {
            (to - from) as nat
        } else {
            0
        },
        |i: int|
            NodeModel { kind: NodeKind::Text, children: Seq::empty(), token: Some(tokens[from + i]) },
    )
}

/// The node for the line that starts at `from`, and where the next line
/// starts: behind the line feed that ends this one.
pub open spec fn line_node(tokens: Seq<TokenModel>, from: int, kind: NodeKind) -> (NodeModel, int) {
    let end = line_end(tokens, from);
    (
        NodeModel { kind, children: word_nodes(tokens, from, end), token: None },
        if end < tokens.len() {
            end + 1
        } else {
            end
        },
    )
}

/// What a line that starts with a token is.
pub open spec fn line_kind(first: TokenModel) -> NodeKind {
    if first.kind == SyntaxKind::Asterisk {
        NodeKind::Heading
    } else {
        NodeKind::Paragraph
    }
}

/// The nodes for the lines from `from` on.
pub open spec fn nodes_from(tokens: Seq<TokenModel>, from: int) -> Seq<NodeModel>
    decreases tokens.len() - from,
{
    if from < 0 || from >= tokens.len() {
        Seq::empty()
    } else {
        let (node, next) = line_node(tokens, from, line_kind(tokens[from]));
        if next <= from || next > tokens.len() {
            seq![node]
        } else {
            seq![node] + nodes_from(tokens, next)
        }
    }
}

/// A line ends at or behind its start, within the tokens.
pub proof fn lemma_line_end_bounds(tokens: Seq<TokenModel>, from: int)
    requires
        0 <= from <= tokens.len(),
    ensures
        from <= line_end(tokens, from) <= tokens.len(),
    decreases tokens.len() - from,
{
    if from < tokens.len() && tokens[from].kind != SyntaxKind::Newline {
        lemma_line_end_bounds(tokens, from + 1);
    }
}

/// A reader of tokens, line by line.
pub struct Parser {
    tokens: Vec<Token>,
    current: usize,
}

impl Parser {
    /// The tokens being read.
    pub closed spec fn tokens(&self) -> Seq<TokenModel> {
        token_views(self.tokens@)
    }

    /// The index of the next token to read.
    pub closed spec fn current(&self) -> int {
        self.current as int
    }

    /// The reader stands within its tokens.
    #[verifier::type_invariant]
    pub closed spec fn wf(&self) -> bool {
        self.current <= self.tokens@.len()
    }

    /// A reader at the first of `tokens`.
    pub fn new(tokens: Vec<Token>) -> (parser: Parser)
        ensures
            parser.wf(),
            parser.tokens() == token_views(tokens@),
            parser.current() == 0,
    {
        Parser { tokens, current: 0 }
    }

    /// The next token, if there is one.
    pub fn peek(&self) -> (token: Option<&Token>)
        ensures
            token is Some <==> self.current() < self.tokens().len(),
            token matches Some(t) ==> t@ == self.tokens()[self.current()],
    {
        proof {
            use_type_invariant(&*self);
        }
        if self.current < self.tokens.len() {
            Some(&self.tokens[self.current])
        } else {
            None
        }
    }

    /// Reads the next token, if there is one.
    pub fn advance(&mut self) -> (token: Option<Token>)
        ensures
            final(self).wf(),
            final(self).tokens() == old(self).tokens(),
            token is Some <==> old(self).current() < old(self).tokens().len(),
            token matches Some(t) ==> t@ == old(self).tokens()[old(self).current()],
            final(self).current() == if token is Some {
                old(self).current() + 1
            } else {
                old(self).current()
            },
    {
        proof {
            use_type_invariant(&*self);
        }
        if self.current < self.tokens.len() {
            let token = self.tokens[self.current].copy();
            self.current += 1;
            Some(token)
        } else {
            None
        }
    }

    /// Reads a line as a node of a kind: its words up to the line feed.
    fn parse_line(&mut self, kind: NodeKind) -> (node: Node)
        ensures
            final(self).wf(),
            final(self).tokens() == old(self).tokens(),
            (node@, final(self).current()) == line_node(
                old(self).tokens(),
                old(self).current(),
                kind,
            ),
    {
        proof {
            use_type_invariant(&*self);
        }
        let mut node = Node::new(kind, None);
        let ghost tokens = self.tokens();
        let ghost start = self.current as int;
        assert(node@.children =~= word_nodes(tokens, start, self.current as int));
        loop
            invariant_except_break
                line_end(tokens, self.current as int) == line_end(tokens, start),
                node@.children == word_nodes(tokens, start, self.current as int),
            invariant
                self.wf(),
                tokens == self.tokens(),
                start == old(self).current,
                start <= self.current,
                node.kind == kind,
                node.token is None,
            ensures
                (node@, self.current as int) == line_node(tokens, start, kind),
            decreases self.tokens@.len() - self.current,
        {
            let ghost here = self.current as int;
            let ghost before = node@.children;
            match self.advance() {
                Some(token) => match token.kind {
                    SyntaxKind::Newline => {
                        assert(node@ =~= line_node(tokens, start, kind).0);
                        break;
                    },
                    _ => {
                        let word = Node::new(NodeKind::Text, Some(token));
                        node.children.push(word);
                        assert(node@.children =~= before.push(word@));
                        assert(node@.children =~= word_nodes(tokens, start, self.current as int));
                    },
                },
                None => {
                    assert(node@ =~= line_node(tokens, start, kind).0);
                    break;
                },
            }
        }
        node
    }

    /// Reads a line as a heading.
    pub fn parse_heading(&mut self) -> (node: Node)
        ensures
            final(self).wf(),
            final(self).tokens() == old(self).tokens(),
            (node@, final(self).current()) == line_node(
                old(self).tokens(),
                old(self).current(),
                NodeKind::Heading,
            ),
    {
        proof {
            use_type_invariant(&*self);
        }
        self.parse_line(NodeKind::Heading)
    }

    /// Reads a line as a paragraph.
    pub fn parse_paragraph(&mut self) -> (node: Node)
        ensures
            final(self).wf(),
            final(self).tokens() == old(self).tokens(),
            (node@, final(self).current()) == line_node(
                old(self).tokens(),
                old(self).current(),
                NodeKind::Paragraph,
            ),
    {
        proof {
            use_type_invariant(&*self);
        }
        self.parse_line(NodeKind::Paragraph)
    }

    /// Reads the lines that are left: a line that starts with an asterisk
    /// token is a heading, every other line a paragraph.
    pub fn parse(&mut self) -> (nodes: Vec<Node>)
        ensures
            final(self).wf(),
            final(self).tokens() == old(self).tokens(),
            node_views(nodes@) == nodes_from(old(self).tokens(), old(self).current()),
    {
        proof {
            use_type_invariant(&*self);
        }
        let mut nodes: Vec<Node> = Vec::new();
        let ghost tokens = self.tokens();
        let ghost all = nodes_from(tokens, self.current as int);
        assert(node_views(nodes@) + nodes_from(tokens, self.current as int) =~= all);
        while self.current < self.tokens.len()
            invariant
                self.wf(),
                tokens == self.tokens(),
                node_views(nodes@) + nodes_from(tokens, self.current as int) == all,
            decreases self.tokens@.len() - self.current,
        {
            let ghost before = node_views(nodes@);
            let ghost here = self.current as int;
            proof {
                lemma_line_end_bounds(tokens, here);
            }
            let node = match self.tokens[self.current].kind {
                SyntaxKind::Asterisk => self.parse_heading(),
                _ => self.parse_paragraph(),
            };
            nodes.push(node);
            assert(node_views(nodes@) =~= before.push(node@));
            assert(nodes_from(tokens, here) =~= seq![node@] + nodes_from(
                tokens,
                self.current as int,
            ));
            assert(node_views(nodes@) + nodes_from(tokens, self.current as int) =~= before
                + nodes_from(tokens, here));
        }
        assert(node_views(nodes@) =~= all);
        nodes
    }
}

/// A text that is being read: the tokenizer's view of its input.
#[derive(Debug, Clone, Copy, PartialEq, Eq, Hash)]
pub struct Tokens<'a> {
    pub input: &'a str,
}

/// What can be wrong with a piece of markup, and where.
#[derive(Debug, Clone, Copy, PartialEq, Eq, Hash)]
pub enum ParseError {
    UnmatchedDelimiter { expected: char, found: Option<char>, span: crate::span::Range },
    InvalidLinkSyntax { span: crate::span::Range },
    InvalidListIndentation { span: crate::span::Range },
    UnexpectedToken { found: char, span: crate::span::Range },
}

} // verus!
