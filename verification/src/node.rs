//! The concrete and the abstract syntax tree, their mathematical models, and
//! the queries over them.

use vstd::prelude::*;

use crate::kind::SyntaxKind;
use crate::span::Span;

verus! {

/// A fault found in the source, with advice on how to mend it.
#[derive(Debug, Clone, PartialEq, Eq, Hash)]
pub struct SyntaxError {
    /// Where the fault lies.
    pub span: Span,
    /// What is wrong.
    pub message: String,
    /// How the fault could be avoided or worked around.
    pub hints: Vec<String>,
}

/// The model of a [`SyntaxError`].
pub struct ErrorModel {
    pub span: Span,
    pub message: Seq<char>,
    pub hints: Seq<Seq<char>>,
}

/// The character sequences that a sequence of strings holds.
pub open spec fn strings_view(strings: Seq<String>) -> Seq<Seq<char>> {
    Seq::new(strings.len(), |i: int| strings[i]@)
}

impl View for SyntaxError {
    type V = ErrorModel;

    open spec fn view(&self) -> ErrorModel {
        ErrorModel { span: self.span, message: self.message@, hints: strings_view(self.hints@) }
    }
}

impl SyntaxError {
    /// An error that is not yet anchored to a place in the source.
    pub fn new(message: &str) -> (error: SyntaxError)
        ensures
            error@ == (ErrorModel {
                span: Span::spec_detached(),
                message: message@,
                hints: Seq::empty(),
            }),
    {
        let error = SyntaxError {
            span: Span::detached(),
            message: message.to_owned(),
            hints: Vec::new(),
        };
        assert(error@.hints =~= Seq::empty());
        error
    }

    /// Whether two errors agree in everything but their spans.
    pub fn spanless_eq(&self, other: &SyntaxError) -> (same: bool)
        ensures
            same == (self@.message == other@.message && self@.hints == other@.hints),
    {
        if self.message != other.message {
            return false;
        }
        if self.hints.len() != other.hints.len() {
            assert(self@.hints.len() != other@.hints.len());
            return false;
        }
        let mut i: usize = 0;
        while i < self.hints.len()
            invariant
                i <= self.hints.len(),
                self.hints.len() == other.hints.len(),
                forall|j: int| 0 <= j < i ==> self.hints@[j]@ == other.hints@[j]@,
            decreases self.hints.len() - i,
        {
            if self.hints[i] != other.hints[i] {
                assert(self@.hints[i as int] != other@.hints[i as int]);
                return false;
            }
            i += 1;
        }
        assert(self@.hints =~= other@.hints);
        true
    }
}

/// A node of the concrete syntax tree: one variant for each construct, each
/// with the span of source text it covers.
#[derive(Debug, PartialEq, Eq)]
pub enum CSTNode {
    Document { children: Vec<CSTNode>, span: Span },
    Heading { level: u8, content: Vec<CSTNode>, markers: Span, span: Span },
    Paragraph { content: Vec<CSTNode>, span: Span },
    Text { content: String, span: Span },
    Bold { content: Vec<CSTNode>, markers: Span, span: Span },
    Italic { content: Vec<CSTNode>, markers: Span, span: Span },
    LineBreak { span: Span },
    Error { text: String, error: SyntaxError },
}

/// The model of a [`CSTNode`]: the same tree over sequences.
pub enum Cst {
    Document { children: Seq<Cst>, span: Span },
    Heading { level: u8, content: Seq<Cst>, markers: Span, span: Span },
    Paragraph { content: Seq<Cst>, span: Span },
    Text { content: Seq<char>, span: Span },
    Bold { content: Seq<Cst>, markers: Span, span: Span },
    Italic { content: Seq<Cst>, markers: Span, span: Span },
    LineBreak { span: Span },
    Error { text: Seq<char>, error: ErrorModel },
}

impl CSTNode {
    /// The model of this node: its tree with every string and vector
    /// replaced by the sequence it holds.
    pub open spec fn model(&self) -> Cst
        decreases self,
    {
        match self {
            CSTNode::Document { children, span } => Cst::Document {
                children: Seq::new(
                    children@.len(),
                    |i: int|
                        if 0 <= i < children@.len() {
                            children@[i].model()
                        } else {
                            Cst::LineBreak { span: *span }
                        },
                ),
                span: *span,
            },
            CSTNode::Heading { level, content, markers, span } => Cst::Heading {
                level: *level,
                content: Seq::new(
                    content@.len(),
                    |i: int|
                        if 0 <= i < content@.len() {
                            content@[i].model()
                        } else {
                            Cst::LineBreak { span: *span }
                        },
                ),
                markers: *markers,
                span: *span,
            },
            CSTNode::Paragraph { content, span } => Cst::Paragraph {
                content: Seq::new(
                    content@.len(),
                    |i: int|
                        if 0 <= i < content@.len() {
                            content@[i].model()
                        } else {
                            Cst::LineBreak { span: *span }
                        },
                ),
                span: *span,
            },
            CSTNode::Text { content, span } => Cst::Text { content: content@, span: *span },
            CSTNode::Bold { content, markers, span } => Cst::Bold {
                content: Seq::new(
                    content@.len(),
                    |i: int|
                        if 0 <= i < content@.len() {
                            content@[i].model()
                        } else {
                            Cst::LineBreak { span: *span }
                        },
                ),
                markers: *markers,
                span: *span,
            },
            CSTNode::Italic { content, markers, span } => Cst::Italic {
                content: Seq::new(
                    content@.len(),
                    |i: int|
                        if 0 <= i < content@.len() {
                            content@[i].model()
                        } else {
                            Cst::LineBreak { span: *span }
                        },
                ),
                markers: *markers,
                span: *span,
            },
            CSTNode::LineBreak { span } => Cst::LineBreak { span: *span },
            CSTNode::Error { text, error } => Cst::Error { text: text@, error: error@ },
        }
    }
}

impl View for CSTNode {
    type V = Cst;

    open spec fn view(&self) -> Cst {
        self.model()
    }
}

/// The models of a sequence of nodes, in order.
pub open spec fn cst_views(nodes: Seq<CSTNode>) -> Seq<Cst> {
    Seq::new(nodes.len(), |i: int| nodes[i]@)
}

/// The models of a sequence of borrowed nodes, in order.
pub open spec fn cst_ref_views(nodes: Seq<&CSTNode>) -> Seq<Cst> {
    Seq::new(nodes.len(), |i: int| nodes[i]@)
}

impl Cst {
    /// The construct this node stands for.
    pub open spec fn kind(self) -> SyntaxKind {
        match self {
            Cst::Document { .. } => SyntaxKind::Document,
            Cst::Heading { .. } => SyntaxKind::Heading,
            Cst::Paragraph { .. } => SyntaxKind::Paragraph,
            Cst::Text { .. } => SyntaxKind::Text,
            Cst::Bold { .. } => SyntaxKind::Bold,
            Cst::Italic { .. } => SyntaxKind::Italic,
            Cst::LineBreak { .. } => SyntaxKind::LineBreak,
            Cst::Error { .. } => SyntaxKind::Error,
        }
    }

    /// The span of source text the node covers.
    pub open spec fn span(self) -> Span {
        match self {
            Cst::Document { span, .. } => span,
            Cst::Heading { span, .. } => span,
            Cst::Paragraph { span, .. } => span,
            Cst::Text { span, .. } => span,
            Cst::Bold { span, .. } => span,
            Cst::Italic { span, .. } => span,
            Cst::LineBreak { span } => span,
            Cst::Error { error, .. } => error.span,
        }
    }

    /// Whether the node is of a kind that holds child nodes.
    pub open spec fn is_container(self) -> bool {
        self is Document || self is Heading || self is Paragraph || self is Bold || self is Italic
    }

    /// The child nodes; none for a node that is no container.
    pub open spec fn children(self) -> Seq<Cst> {
        match self {
            Cst::Document { children, .. } => children,
            Cst::Heading { content, .. } => content,
            Cst::Paragraph { content, .. } => content,
            Cst::Bold { content, .. } => content,
            Cst::Italic { content, .. } => content,
            _ => Seq::empty(),
        }
    }

    /// The span of the node's meaningful text, its markers left out.
    ///
    /// A heading, a bold and an italic node begin where their markers end
    /// and end where the text of their last child ends. A paragraph reaches
    /// from the least start to the greatest end among its children's texts.
    /// A document has no text of its own.
    pub open spec fn text_span(self) -> Span
        decreases self, 0nat,
    {
        match self {
            Cst::Document { span, .. } => Span {
                start: 0,
                end: 0,
                line: span.line,
                column: span.column,
            },
            Cst::Heading { content, markers, span, .. } => Span {
                start: markers.end,
                end: last_text_end(content, markers.end),
                line: span.line,
                column: span.column,
            },
            Cst::Paragraph { content, span } => {
                let start = least_text_start(content, content.len()).unwrap_or(0);
                Span {
                    start,
                    end: greatest_text_end(content, content.len()).unwrap_or(start),
                    line: span.line,
                    column: span.column,
                }
            },
            Cst::Text { span, .. } => span,
            Cst::Bold { content, markers, span } => Span {
                start: markers.end,
                end: last_text_end(content, markers.end),
                line: span.line,
                column: span.column,
            },
            Cst::Italic { content, markers, span } => Span {
                start: markers.end,
                end: last_text_end(content, markers.end),
                line: span.line,
                column: span.column,
            },
            Cst::LineBreak { span } => span,
            Cst::Error { error, .. } => error.span,
        }
    }

    /// The node and everything below it, each node before its children and
    /// the children from first to last.
    pub open spec fn preorder(self) -> Seq<Cst>
        decreases self, 0nat,
    {
        seq![self] + (match self {
            Cst::Document { children, .. } => preorder_all(children, children.len()),
            Cst::Heading { content, .. } => preorder_all(content, content.len()),
            Cst::Paragraph { content, .. } => preorder_all(content, content.len()),
            Cst::Bold { content, .. } => preorder_all(content, content.len()),
            Cst::Italic { content, .. } => preorder_all(content, content.len()),
            _ => Seq::empty(),
        })
    }
}

/// Where the text of the last of `nodes` ends, or `otherwise` if there is no
/// node.
pub open spec fn last_text_end(nodes: Seq<Cst>, otherwise: usize) -> usize
    decreases nodes, 1nat,
{
    if nodes.len() == 0 {
        otherwise
    } else {
        nodes[nodes.len() - 1].text_span().end
    }
}

/// The least start among the texts of the first `count` of `nodes`.
pub open spec fn least_text_start(nodes: Seq<Cst>, count: nat) -> Option<usize>
    decreases nodes, count,
{
    if count == 0 || count > nodes.len() {
        None
    } else {
        let here = nodes[count - 1].text_span().start;
        match least_text_start(nodes, (count - 1) as nat) {
            Some(least) => Some(if here < least { here } else { least }),
            None => Some(here),
        }
    }
}

/// The greatest end among the texts of the first `count` of `nodes`.
pub open spec fn greatest_text_end(nodes: Seq<Cst>, count: nat) -> Option<usize>
    decreases nodes, count,
{
    if count == 0 || count > nodes.len() {
        None
    } else {
        let here = nodes[count - 1].text_span().end;
        match greatest_text_end(nodes, (count - 1) as nat) {
            Some(greatest) => Some(if here > greatest { here } else { greatest }),
            None => Some(here),
        }
    }
}

/// The pre-order listings of the first `count` of `nodes`, one after another.
pub open spec fn preorder_all(nodes: Seq<Cst>, count: nat) -> Seq<Cst>
    decreases nodes, count,
{
    if count == 0 || count > nodes.len() {
        Seq::empty()
    } else {
        preorder_all(nodes, (count - 1) as nat) + nodes[count - 1].preorder()
    }
}

impl CSTNode {
    /// The construct this node stands for.
    pub fn kind(&self) -> (kind: SyntaxKind)
        ensures
            kind == self@.kind(),
    {
        match self {
            CSTNode::Document { .. } => SyntaxKind::Document,
            CSTNode::Heading { .. } => SyntaxKind::Heading,
            CSTNode::Paragraph { .. } => SyntaxKind::Paragraph,
            CSTNode::Text { .. } => SyntaxKind::Text,
            CSTNode::Bold { .. } => SyntaxKind::Bold,
            CSTNode::Italic { .. } => SyntaxKind::Italic,
            CSTNode::LineBreak { .. } => SyntaxKind::LineBreak,
            CSTNode::Error { .. } => SyntaxKind::Error,
        }
    }

    /// The child nodes of a container, `None` for any other node.
    pub fn children(&self) -> (children: Option<&Vec<CSTNode>>)
        ensures
            children is Some <==> self@.is_container(),
            children matches Some(nodes) ==> cst_views(nodes@) == self@.children(),
            children matches Some(nodes) ==> decreases_to!(self => nodes),
            children matches Some(nodes) ==> forall|i: int|
                0 <= i < nodes@.len() ==> decreases_to!(self => #[trigger] nodes@[i]),
    {
        match self {
            CSTNode::Heading { content, .. } => {
                assert(self@ is Heading);
                assert(self@.children().len() == content@.len());
                assert forall|i: int| 0 <= i < content@.len() implies self@.children()[i] == content@[i]@ by {
                }
                assert(cst_views(content@) =~= self@.children());
                Some(content)
            },
            CSTNode::Paragraph { content, .. } => {
                assert(cst_views(content@) =~= self@.children());
                Some(content)
            },
            CSTNode::Bold { content, .. } => {
                assert(cst_views(content@) =~= self@.children());
                Some(content)
            },
            CSTNode::Italic { content, .. } => {
                assert(cst_views(content@) =~= self@.children());
                Some(content)
            },
            CSTNode::Document { children, .. } => {
                assert(cst_views(children@) =~= self@.children());
                Some(children)
            },
            _ => None,
        }
    }

    /// The span of source text the node covers.
    pub fn span(&self) -> (span: &Span)
        ensures
            *span == self@.span(),
    {
        match self {
            CSTNode::Document { span, .. } => span,
            CSTNode::Heading { span, .. } => span,
            CSTNode::Paragraph { span, .. } => span,
            CSTNode::Text { span, .. } => span,
            CSTNode::Bold { span, .. } => span,
            CSTNode::Italic { span, .. } => span,
            CSTNode::LineBreak { span } => span,
            CSTNode::Error { error, .. } => &error.span,
        }
    }

    /// The characters of a text node, `None` for any other node.
    pub fn text(&self) -> (text: Option<&str>)
        ensures
            text is Some <==> self@ is Text,
            text matches Some(s) ==> s@ == self@->Text_content,
    {
        match self {
            CSTNode::Text { content, .. } => Some(content.as_str()),
            _ => None,
        }
    }

    /// The span of the node's meaningful text, its markers left out: what a
    /// rename replaces.
    pub fn text_span(&self) -> (span: Span)
        ensures
            span == self@.text_span(),
        decreases self,
    {
        match self {
            CSTNode::Document { span, .. } => Span::new(0, 0, span.line, span.column),
            CSTNode::Heading { content, markers, span, .. } => {
                assert(cst_views(content@) =~= self@.children());
                let end = Self::last_text_end(content, markers.end);
                Span::new(markers.end, end, span.line, span.column)
            },
            CSTNode::Paragraph { content, span } => {
                assert(cst_views(content@) =~= self@.children());
                let mut least: Option<usize> = None;
                let mut greatest: Option<usize> = None;
                let mut i: usize = 0;
                while i < content.len()
                    invariant
                        i <= content.len(),
                        cst_views(content@) == self@.children(),
                        self@ is Paragraph,
                        forall|j: int|
                            0 <= j < content@.len() ==> decreases_to!(self => #[trigger] content@[j]),
                        least == least_text_start(self@.children(), i as nat),
                        greatest == greatest_text_end(self@.children(), i as nat),
                    decreases content.len() - i,
                {
                    assert(self@.children()[i as int] == content@[i as int]@);
                    let here = content[i].text_span();
                    least = match least {
                        Some(value) => Some(if here.start < value { here.start } else { value }),
                        None => Some(here.start),
                    };
                    greatest = match greatest {
                        Some(value) => Some(if here.end > value { here.end } else { value }),
                        None => Some(here.end),
                    };
                    i += 1;
                }
                let start = match least {
                    Some(value) => value,
                    None => 0,
                };
                let end = match greatest {
                    Some(value) => value,
                    None => start,
                };
                Span::new(start, end, span.line, span.column)
            },
            CSTNode::Text { span, .. } => *span,
            CSTNode::Bold { content, markers, span } => {
                assert(cst_views(content@) =~= self@.children());
                let end = Self::last_text_end(content, markers.end);
                Span::new(markers.end, end, span.line, span.column)
            },
            CSTNode::Italic { content, markers, span } => {
                assert(cst_views(content@) =~= self@.children());
                let end = Self::last_text_end(content, markers.end);
                Span::new(markers.end, end, span.line, span.column)
            },
            CSTNode::LineBreak { span } => *span,
            CSTNode::Error { error, .. } => error.span,
        }
    }

    /// Where the text of the last of `nodes` ends, or `otherwise` if there is
    /// no node.
    fn last_text_end(nodes: &Vec<CSTNode>, otherwise: usize) -> (end: usize)
        ensures
            end == last_text_end(cst_views(nodes@), otherwise),
        decreases nodes,
    {
        if nodes.len() == 0 {
            otherwise
        } else {
            nodes[nodes.len() - 1].text_span().end
        }
    }

    /// Appends this node and everything below it to `nodes`, each node before
    /// its children.
    pub fn traverse_for<'a>(&'a self, nodes: &mut Vec<&'a CSTNode>)
        ensures
            cst_ref_views(final(nodes)@) == cst_ref_views(old(nodes)@) + self@.preorder(),
        decreases self,
    {
        let ghost before = cst_ref_views(nodes@);
        nodes.push(self);
        assert(cst_ref_views(nodes@) =~= before + seq![self@]);
        if let Some(children) = self.children() {
            let mut i: usize = 0;
            while i < children.len()
                invariant
                    i <= children.len(),
                    cst_views(children@) == self@.children(),
                    forall|j: int|
                        0 <= j < children@.len() ==> decreases_to!(self => #[trigger] children@[j]),
                    cst_ref_views(nodes@) == before + seq![self@] + preorder_all(
                        self@.children(),
                        i as nat,
                    ),
                decreases children.len() - i,
            {
                let ghost so_far = cst_ref_views(nodes@);
                children[i].traverse_for(nodes);
                assert(self@.children()[i as int] == children@[i as int]@);
                assert(cst_ref_views(nodes@) =~= before + seq![self@] + preorder_all(
                    self@.children(),
                    (i + 1) as nat,
                ));
                i += 1;
            }
        }
    }

    /// Every node of the given kind, this node included, in document order.
    pub fn find_by_kind(&self, kind: SyntaxKind) -> (found: Vec<&CSTNode>)
        ensures
            cst_ref_views(found@) == self@.preorder().filter(of_kind(kind)),
    {
        let mut all_nodes: Vec<&CSTNode> = Vec::new();
        self.traverse_for(&mut all_nodes);
        assert(cst_ref_views(all_nodes@) =~= self@.preorder());
        let ghost wanted = of_kind(kind);
        let mut found: Vec<&CSTNode> = Vec::new();
        let mut i: usize = 0;
        assert(self@.preorder().take(0) =~= Seq::<Cst>::empty());
        assert(cst_ref_views(found@) =~= Seq::<Cst>::empty());
        while i < all_nodes.len()
            invariant
                i <= all_nodes.len(),
                wanted == of_kind(kind),
                cst_ref_views(all_nodes@) == self@.preorder(),
                cst_ref_views(found@) == self@.preorder().take(i as int).filter(wanted),
            decreases all_nodes.len() - i,
        {
            let node = all_nodes[i];
            proof {
                let listing = self@.preorder();
                assert(listing.take(i + 1) =~= listing.take(i as int).push(node@));
                lemma_filter_push(listing.take(i as int), node@, wanted);
            }
            let ghost found_before = cst_ref_views(found@);
            if node.kind() == kind {
                found.push(node);
                assert(cst_ref_views(found@) =~= found_before.push(node@));
            }
            i += 1;
        }
        assert(self@.preorder().take(i as int) =~= self@.preorder());
        found
    }

    /// Every node whose span equals `span`, this node included, in document
    /// order.
    pub fn find_by_span(&self, span: &Span) -> (found: Vec<&CSTNode>)
        ensures
            cst_ref_views(found@) == self@.preorder().filter(with_span(*span)),
    {
        let mut all_nodes: Vec<&CSTNode> = Vec::new();
        self.traverse_for(&mut all_nodes);
        assert(cst_ref_views(all_nodes@) =~= self@.preorder());
        let ghost wanted = with_span(*span);
        let mut found: Vec<&CSTNode> = Vec::new();
        let mut i: usize = 0;
        assert(self@.preorder().take(0) =~= Seq::<Cst>::empty());
        assert(cst_ref_views(found@) =~= Seq::<Cst>::empty());
        while i < all_nodes.len()
            invariant
                i <= all_nodes.len(),
                wanted == with_span(*span),
                cst_ref_views(all_nodes@) == self@.preorder(),
                cst_ref_views(found@) == self@.preorder().take(i as int).filter(wanted),
            decreases all_nodes.len() - i,
        {
            let node = all_nodes[i];
            proof {
                let listing = self@.preorder();
                assert(listing.take(i + 1) =~= listing.take(i as int).push(node@));
                lemma_filter_push(listing.take(i as int), node@, wanted);
            }
            let ghost found_before = cst_ref_views(found@);
            if *node.span() == *span {
                found.push(node);
                assert(cst_ref_views(found@) =~= found_before.push(node@));
            }
            i += 1;
        }
        assert(self@.preorder().take(i as int) =~= self@.preorder());
        found
    }
}

/// A node of the abstract syntax tree: what a [`CSTNode`] means, without
/// spans and markers.
#[derive(Debug, PartialEq, Eq)]
pub enum ASTNode {
    Document(Vec<ASTNode>),
    Heading { level: u8, content: Vec<ASTNode> },
    Paragraph(Vec<ASTNode>),
    Text(String),
    Bold(Vec<ASTNode>),
    Italic(Vec<ASTNode>),
    LineBreak,
    Error(String),
}

/// The model of an [`ASTNode`]: the same tree over sequences.
pub enum Ast {
    Document(Seq<Ast>),
    Heading { level: u8, content: Seq<Ast> },
    Paragraph(Seq<Ast>),
    Text(Seq<char>),
    Bold(Seq<Ast>),
    Italic(Seq<Ast>),
    LineBreak,
    Error(Seq<char>),
}

impl ASTNode {
    /// The model of this node.
    pub open spec fn model(&self) -> Ast
        decreases self,
    {
        match self {
            ASTNode::Document(children) => Ast::Document(
                Seq::new(
                    children@.len(),
                    |i: int| if 0 <= i < children@.len() { children@[i].model() } else { Ast::LineBreak },
                ),
            ),
            ASTNode::Heading { level, content } => Ast::Heading {
                level: *level,
                content: Seq::new(
                    content@.len(),
                    |i: int| if 0 <= i < content@.len() { content@[i].model() } else { Ast::LineBreak },
                ),
            },
            ASTNode::Paragraph(content) => Ast::Paragraph(
                Seq::new(
                    content@.len(),
                    |i: int| if 0 <= i < content@.len() { content@[i].model() } else { Ast::LineBreak },
                ),
            ),
            ASTNode::Text(content) => Ast::Text(content@),
            ASTNode::Bold(content) => Ast::Bold(
                Seq::new(
                    content@.len(),
                    |i: int| if 0 <= i < content@.len() { content@[i].model() } else { Ast::LineBreak },
                ),
            ),
            ASTNode::Italic(content) => Ast::Italic(
                Seq::new(
                    content@.len(),
                    |i: int| if 0 <= i < content@.len() { content@[i].model() } else { Ast::LineBreak },
                ),
            ),
            ASTNode::LineBreak => Ast::LineBreak,
            ASTNode::Error(text) => Ast::Error(text@),
        }
    }
}

impl View for ASTNode {
    type V = Ast;

    open spec fn view(&self) -> Ast {
        self.model()
    }
}

/// The models of a sequence of nodes, in order.
pub open spec fn ast_views(nodes: Seq<ASTNode>) -> Seq<Ast> {
    Seq::new(nodes.len(), |i: int| nodes[i]@)
}

impl Ast {
    /// Whether the node is of a kind that holds child nodes.
    pub open spec fn is_container(self) -> bool {
        self is Document || self is Heading || self is Paragraph || self is Bold || self is Italic
    }

    /// The child nodes; none for a node that is no container.
    pub open spec fn children(self) -> Seq<Ast> {
        match self {
            Ast::Document(children) => children,
            Ast::Heading { content, .. } => content,
            Ast::Paragraph(content) => content,
            Ast::Bold(content) => content,
            Ast::Italic(content) => content,
            _ => Seq::empty(),
        }
    }
}

impl ASTNode {
    /// The child nodes of a container, `None` for any other node.
    pub fn children(&self) -> (children: Option<&Vec<ASTNode>>)
        ensures
            children is Some <==> self@.is_container(),
            children matches Some(nodes) ==> ast_views(nodes@) == self@.children(),
            children matches Some(nodes) ==> decreases_to!(self => nodes),
            children matches Some(nodes) ==> forall|i: int|
                0 <= i < nodes@.len() ==> decreases_to!(self => #[trigger] nodes@[i]),
    {
        match self {
            ASTNode::Document(children) => {
                assert(ast_views(children@) =~= self@.children());
                Some(children)
            },
            ASTNode::Heading { content, .. } => {
                assert(ast_views(content@) =~= self@.children());
                Some(content)
            },
            ASTNode::Paragraph(content) => {
                assert(ast_views(content@) =~= self@.children());
                Some(content)
            },
            ASTNode::Bold(content) => {
                assert(ast_views(content@) =~= self@.children());
                Some(content)
            },
            ASTNode::Italic(content) => {
                assert(ast_views(content@) =~= self@.children());
                Some(content)
            },
            _ => None,
        }
    }

    /// The characters of a text node, `None` for any other node.
    pub fn text(&self) -> (text: Option<&str>)
        ensures
            text is Some <==> self@ is Text,
            text matches Some(s) ==> s@ == self@->Text_0,
    {
        match self {
            ASTNode::Text(content) => Some(content.as_str()),
            _ => None,
        }
    }
}

impl Cst {
    /// What the node means: the same tree without spans and markers. An error
    /// node keeps the text it could not make sense of.
    pub open spec fn lower(self) -> Ast
        decreases self,
    {
        match self {
            Cst::Document { children, .. } => Ast::Document(
                Seq::new(
                    children.len(),
                    |i: int| if 0 <= i < children.len() { children[i].lower() } else { Ast::LineBreak },
                ),
            ),
            Cst::Heading { level, content, .. } => Ast::Heading {
                level,
                content: Seq::new(
                    content.len(),
                    |i: int| if 0 <= i < content.len() { content[i].lower() } else { Ast::LineBreak },
                ),
            },
            Cst::Paragraph { content, .. } => Ast::Paragraph(
                Seq::new(
                    content.len(),
                    |i: int| if 0 <= i < content.len() { content[i].lower() } else { Ast::LineBreak },
                ),
            ),
            Cst::Text { content, .. } => Ast::Text(content),
            Cst::Bold { content, .. } => Ast::Bold(
                Seq::new(
                    content.len(),
                    |i: int| if 0 <= i < content.len() { content[i].lower() } else { Ast::LineBreak },
                ),
            ),
            Cst::Italic { content, .. } => Ast::Italic(
                Seq::new(
                    content.len(),
                    |i: int| if 0 <= i < content.len() { content[i].lower() } else { Ast::LineBreak },
                ),
            ),
            Cst::LineBreak { .. } => Ast::LineBreak,
            Cst::Error { text, .. } => Ast::Error(text),
        }
    }
}

/// The meanings of a sequence of nodes, in order.
pub open spec fn lower_all(nodes: Seq<Cst>) -> Seq<Ast> {
    Seq::new(nodes.len(), |i: int| nodes[i].lower())
}

impl CSTNode {
    /// The abstract syntax tree of this node.
    pub fn to_ast(&self) -> (ast: ASTNode)
        ensures
            ast@ == self@.lower(),
        decreases self, 1nat,
    {
        match self {
            CSTNode::Document { children, .. } => {
                let lowered = Self::to_ast_all(children);
                assert(ast_views(lowered@) =~= self@.lower()->Document_0);
                let ast = ASTNode::Document(lowered);
                assert(ast@->Document_0 =~= self@.lower()->Document_0);
                ast
            },
            CSTNode::Heading { level, content, .. } => {
                let lowered = Self::to_ast_all(content);
                assert(ast_views(lowered@) =~= self@.lower()->Heading_content);
                let ast = ASTNode::Heading { level: *level, content: lowered };
                assert(ast@->Heading_content =~= self@.lower()->Heading_content);
                ast
            },
            CSTNode::Paragraph { content, .. } => {
                let lowered = Self::to_ast_all(content);
                assert(ast_views(lowered@) =~= self@.lower()->Paragraph_0);
                let ast = ASTNode::Paragraph(lowered);
                assert(ast@->Paragraph_0 =~= self@.lower()->Paragraph_0);
                ast
            },
            CSTNode::Text { content, .. } => ASTNode::Text(content.clone()),
            CSTNode::Bold { content, .. } => {
                let lowered = Self::to_ast_all(content);
                assert(ast_views(lowered@) =~= self@.lower()->Bold_0);
                let ast = ASTNode::Bold(lowered);
                assert(ast@->Bold_0 =~= self@.lower()->Bold_0);
                ast
            },
            CSTNode::Italic { content, .. } => {
                let lowered = Self::to_ast_all(content);
                assert(ast_views(lowered@) =~= self@.lower()->Italic_0);
                let ast = ASTNode::Italic(lowered);
                assert(ast@->Italic_0 =~= self@.lower()->Italic_0);
                ast
            },
            CSTNode::LineBreak { .. } => ASTNode::LineBreak,
            CSTNode::Error { text, .. } => ASTNode::Error(text.clone()),
        }
    }

    /// The abstract syntax trees of `nodes`, in order.
    fn to_ast_all(nodes: &Vec<CSTNode>) -> (lowered: Vec<ASTNode>)
        ensures
            ast_views(lowered@) == lower_all(cst_views(nodes@)),
        decreases nodes, 0nat,
    {
        let mut lowered: Vec<ASTNode> = Vec::new();
        let mut i: usize = 0;
        while i < nodes.len()
            invariant
                i <= nodes.len(),
                lowered@.len() == i,
                forall|j: int| 0 <= j < i ==> (#[trigger] lowered@[j])@ == nodes@[j]@.lower(),
            decreases nodes.len() - i,
        {
            lowered.push(nodes[i].to_ast());
            i += 1;
        }
        assert(ast_views(lowered@) =~= lower_all(cst_views(nodes@)));
        lowered
    }
}

/// A node is in the pre-order listing of the first `count` of `nodes` exactly
/// when it is in the listing of one of them.
pub proof fn lemma_preorder_all_members(nodes: Seq<Cst>, count: nat)
    requires
        count <= nodes.len(),
    ensures
        forall|item: Cst|
            preorder_all(nodes, count).contains(item) <==> exists|k: int|
                0 <= k < count && k < nodes.len() && (#[trigger] nodes[k].preorder()).contains(
                    item,
                ),
    decreases count,
{
    let all = preorder_all(nodes, count);
    if count == 0 {
        assert forall|item: Cst| all.contains(item) <==> exists|k: int|
            0 <= k < count && k < nodes.len() && (#[trigger] nodes[k].preorder()).contains(
                item,
            ) by {}
    } else {
        let before = preorder_all(nodes, (count - 1) as nat);
        let last = nodes[count - 1].preorder();
        lemma_preorder_all_members(nodes, (count - 1) as nat);
        assert(all == before + last);
        assert forall|item: Cst| all.contains(item) <==> exists|k: int|
            0 <= k < count && k < nodes.len() && (#[trigger] nodes[k].preorder()).contains(
                item,
            ) by {
            if all.contains(item) {
                let i = choose|i: int| 0 <= i < all.len() && all[i] == item;
                if i < before.len() {
                    assert(before[i] == item);
                    assert(before.contains(item));
                } else {
                    assert(last[i - before.len()] == item);
                    assert(nodes[count - 1].preorder().contains(item));
                }
            }
            if exists|k: int|
                0 <= k < count && k < nodes.len() && (#[trigger] nodes[k].preorder()).contains(
                    item,
                ) {
                let k = choose|k: int|
                    0 <= k < count && k < nodes.len() && (#[trigger] nodes[k].preorder()).contains(
                        item,
                    );
                if k < count - 1 {
                    assert(before.contains(item));
                    let i = choose|i: int| 0 <= i < before.len() && before[i] == item;
                    assert(all[i] == item);
                } else {
                    let i = choose|i: int| 0 <= i < last.len() && last[i] == item;
                    assert(all[before.len() + i] == item);
                }
            }
        }
    }
}

/// The test that a node is of a kind.
pub open spec fn of_kind(kind: SyntaxKind) -> spec_fn(Cst) -> bool {
    |node: Cst| node.kind() == kind
}

/// The test that a node covers a span.
pub open spec fn with_span(span: Span) -> spec_fn(Cst) -> bool {
    |node: Cst| node.span() == span
}

/// What is left of a sequence after filtering was in the sequence.
pub proof fn lemma_filter_subset<A>(items: Seq<A>, keep: spec_fn(A) -> bool)
    ensures
        forall|i: int|
            0 <= i < items.filter(keep).len() ==> items.contains(#[trigger] items.filter(keep)[i]),
    decreases items.len(),
{
    reveal(Seq::filter);
    if items.len() > 0 {
        let front = items.drop_last();
        lemma_filter_subset(front, keep);
        assert forall|i: int| 0 <= i < items.filter(keep).len() implies items.contains(
            #[trigger] items.filter(keep)[i],
        ) by {
            if i < front.filter(keep).len() {
                let item = front.filter(keep)[i];
                assert(front.contains(item));
                let k = choose|k: int| 0 <= k < front.len() && front[k] == item;
                assert(items[k] == item);
            } else {
                assert(items[items.len() - 1] == items.last());
            }
        }
    }
}

/// Filtering a sequence with one more item at its end keeps that item exactly
/// when the predicate accepts it.
pub proof fn lemma_filter_push<A>(items: Seq<A>, last: A, keep: spec_fn(A) -> bool)
    ensures
        items.push(last).filter(keep) == if keep(last) {
            items.filter(keep).push(last)
        } else {
            items.filter(keep)
        },
{
    reveal(Seq::filter);
    assert(items.push(last).drop_last() =~= items);
}

} // verus!
