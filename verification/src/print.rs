//! Trees written out for a reader: one node on a line, children indented
//! beneath their parent.

use vstd::prelude::*;
use vstd::string::StringExecFns;

use crate::node::{ast_views, cst_views, ASTNode, Ast, CSTNode, Cst};
use crate::span::Span;
use crate::strings::{decimal_digits, push_char, push_decimal};

verus! {

/// A span written out with the names of its parts.
pub open spec fn span_text(span: Span) -> Seq<char> {
    "Span { start: "@ + decimal_digits(span.start as nat) + ", end: "@ + decimal_digits(
        span.end as nat,
    ) + ", line: "@ + decimal_digits(span.line as nat) + ", column: "@ + decimal_digits(
        span.column as nat,
    ) + " }"@
}

/// The margin one level deeper than `margin`: two more spaces.
pub open spec fn deeper(margin: Seq<char>) -> Seq<char> {
    margin + seq![' ', ' ']
}

/// The line that opens a node which holds children: what the node is, then
/// an opening brace.
pub open spec fn cst_opening(node: Cst) -> Seq<char> {
    match node {
        Cst::Document { span, .. } => "Document (span: "@ + span_text(span) + ") {\n"@,
        Cst::Heading { level, markers, span, .. } => "Heading Level "@ + decimal_digits(
            level as nat,
        ) + " (span: "@ + span_text(span) + ", markers: "@ + span_text(markers) + ") {\n"@,
        Cst::Paragraph { span, .. } => "Paragraph (span: "@ + span_text(span) + ") {\n"@,
        Cst::Bold { markers, span, .. } => "Bold (span: "@ + span_text(span) + ", markers: "@
            + span_text(markers) + ") {\n"@,
        Cst::Italic { markers, span, .. } => "Italic (span: "@ + span_text(span)
            + ", markers: "@ + span_text(markers) + ") {\n"@,
        _ => Seq::empty(),
    }
}

/// A tree written out behind a margin, its children one level deeper. An
/// error node is left out.
pub open spec fn cst_printed(node: Cst, margin: Seq<char>) -> Seq<char>
    decreases node, 0nat,
{
    match node {
        Cst::Text { content, span } => margin + "Text (span: "@ + span_text(span)
            + "): \""@ + content + "\"\n"@,
        Cst::LineBreak { span } => margin + "LineBreak (span: "@ + span_text(span)
            + ")\n"@,
        Cst::Error { .. } => Seq::empty(),
        Cst::Document { children, .. } => margin + cst_opening(node) + cst_printed_all(
            children,
            children.len(),
            deeper(margin),
        ) + margin + "}\n"@,
        Cst::Heading { content, .. } => margin + cst_opening(node) + cst_printed_all(
            content,
            content.len(),
            deeper(margin),
        ) + margin + "}\n"@,
        Cst::Paragraph { content, .. } => margin + cst_opening(node) + cst_printed_all(
            content,
            content.len(),
            deeper(margin),
        ) + margin + "}\n"@,
        Cst::Bold { content, .. } => margin + cst_opening(node) + cst_printed_all(
            content,
            content.len(),
            deeper(margin),
        ) + margin + "}\n"@,
        Cst::Italic { content, .. } => margin + cst_opening(node) + cst_printed_all(
            content,
            content.len(),
            deeper(margin),
        ) + margin + "}\n"@,
    }
}

/// The first `count` of `nodes` written out behind a margin, one after
/// another.
pub open spec fn cst_printed_all(nodes: Seq<Cst>, count: nat, margin: Seq<char>) -> Seq<char>
    decreases nodes, count,
{
    if count == 0 || count > nodes.len() {
        Seq::empty()
    } else {
        cst_printed_all(nodes, (count - 1) as nat, margin) + cst_printed(nodes[count - 1], margin)
    }
}

/// The line that opens a node which holds children.
pub open spec fn ast_opening(node: Ast) -> Seq<char> {
    match node {
        Ast::Document(_) => "Document {\n"@,
        Ast::Heading { level, .. } => "Heading Level "@ + decimal_digits(level as nat) + " {\n"@,
        Ast::Paragraph(_) => "Paragraph {\n"@,
        Ast::Bold(_) => "Bold {\n"@,
        Ast::Italic(_) => "Italic {\n"@,
        _ => Seq::empty(),
    }
}

/// A tree written out behind a margin, its children one level deeper. An
/// error node is left out.
pub open spec fn ast_printed(node: Ast, margin: Seq<char>) -> Seq<char>
    decreases node, 0nat,
{
    match node {
        Ast::Text(content) => margin + "Text: \""@ + content + "\"\n"@,
        Ast::LineBreak => margin + "LineBreak\n"@,
        Ast::Error(_) => Seq::empty(),
        Ast::Document(children) => margin + ast_opening(node) + ast_printed_all(
            children,
            children.len(),
            deeper(margin),
        ) + margin + "}\n"@,
        Ast::Heading { content, .. } => margin + ast_opening(node) + ast_printed_all(
            content,
            content.len(),
            deeper(margin),
        ) + margin + "}\n"@,
        Ast::Paragraph(content) => margin + ast_opening(node) + ast_printed_all(
            content,
            content.len(),
            deeper(margin),
        ) + margin + "}\n"@,
        Ast::Bold(content) => margin + ast_opening(node) + ast_printed_all(
            content,
            content.len(),
            deeper(margin),
        ) + margin + "}\n"@,
        Ast::Italic(content) => margin + ast_opening(node) + ast_printed_all(
            content,
            content.len(),
            deeper(margin),
        ) + margin + "}\n"@,
    }
}

/// The first `count` of `nodes` written out behind a margin, one after
/// another.
pub open spec fn ast_printed_all(nodes: Seq<Ast>, count: nat, margin: Seq<char>) -> Seq<char>
    decreases nodes, count,
{
    if count == 0 || count > nodes.len() {
        Seq::empty()
    } else {
        ast_printed_all(nodes, (count - 1) as nat, margin) + ast_printed(nodes[count - 1], margin)
    }
}

/// Appends a span, written out with the names of its parts.
fn push_span(output: &mut String, span: &Span)
    ensures
        final(output)@ == old(output)@ + span_text(*span),
{
    output.append("Span { start: ");
    push_decimal(output, span.start);
    output.append(", end: ");
    push_decimal(output, span.end);
    output.append(", line: ");
    push_decimal(output, span.line);
    output.append(", column: ");
    push_decimal(output, span.column);
    output.append(" }");
    assert(output@ =~= old(output)@ + span_text(*span));
}

/// Appends the line that closes a node behind a margin.
fn push_closing(output: &mut String, margin: &str)
    ensures
        final(output)@ == old(output)@ + margin@ + "}\n"@,
{
    output.append(margin);
    output.append("}\n");
}

/// Appends a label, a span and what follows it.
fn push_labelled_span(output: &mut String, label: &str, span: &Span, tail: &str)
    ensures
        final(output)@ == old(output)@ + label@ + span_text(*span) + tail@,
{
    output.append(label);
    push_span(output, span);
    output.append(tail);
}

/// The margin one level deeper than `margin`.
fn deeper_margin(margin: &str) -> (inner: String)
    ensures
        inner@ == deeper(margin@),
{
    let mut inner = String::from_str(margin);
    push_char(&mut inner, ' ');
    push_char(&mut inner, ' ');
    assert(inner@ =~= deeper(margin@));
    inner
}

impl CSTNode {
    /// The tree written out, one node on a line, children two spaces deeper
    /// than their parent.
    pub fn pretty_print(&self) -> (output: String)
        ensures
            output@ == cst_printed(self@, Seq::empty()),
    {
        let mut output = String::new();
        proof {
            reveal_strlit("");
            assert(""@ =~= Seq::<char>::empty());
        }
        self.pretty_print_internal(&mut output, "");
        assert(output@ =~= cst_printed(self@, Seq::empty()));
        output
    }

    /// Appends the line that opens a node which holds children.
    fn push_opening(&self, output: &mut String)
        requires
            self@.is_container(),
        ensures
            final(output)@ == old(output)@ + cst_opening(self@),
    {
        let ghost before = output@;
        match self {
            CSTNode::Document { span, .. } => {
                push_labelled_span(output, "Document (span: ", span, ") {\n");
                assert(output@ =~= before + cst_opening(self@));
            },
            CSTNode::Heading { level, markers, span, .. } => {
                output.append("Heading Level ");
                push_decimal(output, *level as usize);
                push_labelled_span(output, " (span: ", span, ", markers: ");
                push_labelled_span(output, "", markers, ") {\n");
                proof {
                    reveal_strlit("");
                    assert(""@ =~= Seq::<char>::empty());
                }
                assert(output@ =~= before + cst_opening(self@));
            },
            CSTNode::Paragraph { span, .. } => {
                push_labelled_span(output, "Paragraph (span: ", span, ") {\n");
                assert(output@ =~= before + cst_opening(self@));
            },
            CSTNode::Bold { markers, span, .. } => {
                push_labelled_span(output, "Bold (span: ", span, ", markers: ");
                push_labelled_span(output, "", markers, ") {\n");
                proof {
                    reveal_strlit("");
                    assert(""@ =~= Seq::<char>::empty());
                }
                assert(output@ =~= before + cst_opening(self@));
            },
            CSTNode::Italic { markers, span, .. } => {
                push_labelled_span(output, "Italic (span: ", span, ", markers: ");
                push_labelled_span(output, "", markers, ") {\n");
                proof {
                    reveal_strlit("");
                    assert(""@ =~= Seq::<char>::empty());
                }
                assert(output@ =~= before + cst_opening(self@));
            },
            _ => {},
        }
    }

    /// Appends a node that holds no children.
    fn push_leaf(&self, output: &mut String, margin: &str)
        requires
            !self@.is_container(),
        ensures
            final(output)@ == old(output)@ + cst_printed(self@, margin@),
    {
        let ghost before = output@;
        match self {
            CSTNode::Text { content, span } => {
                output.append(margin);
                push_labelled_span(output, "Text (span: ", span, "): \"");
                output.append(content.as_str());
                output.append("\"\n");
                assert(output@ =~= before + cst_printed(self@, margin@));
            },
            CSTNode::LineBreak { span } => {
                output.append(margin);
                push_labelled_span(output, "LineBreak (span: ", span, ")\n");
                assert(output@ =~= before + cst_printed(self@, margin@));
            },
            _ => {
                assert(output@ =~= before + cst_printed(self@, margin@));
            },
        }
    }

    /// Appends the tree, written out behind a margin.
    fn pretty_print_internal(&self, output: &mut String, margin: &str)
        ensures
            final(output)@ == old(output)@ + cst_printed(self@, margin@),
        decreases self, 1nat,
    {
        let ghost before = output@;
        match self.children() {
            Some(children) => {
                output.append(margin);
                self.push_opening(output);
                let inner = deeper_margin(margin);
                Self::pretty_print_all(children, output, inner.as_str());
                push_closing(output, margin);
                assert(output@ =~= before + margin@ + cst_opening(self@) + cst_printed_all(
                    self@.children(),
                    self@.children().len(),
                    deeper(margin@),
                ) + margin@ + "}\n"@);
            },
            None => {
                self.push_leaf(output, margin);
            },
        }
    }

    /// Appends `nodes`, written out behind a margin.
    fn pretty_print_all(nodes: &Vec<CSTNode>, output: &mut String, margin: &str)
        ensures
            final(output)@ == old(output)@ + cst_printed_all(
                cst_views(nodes@),
                nodes@.len(),
                margin@,
            ),
        decreases nodes, 0nat,
    {
        let ghost before = output@;
        let ghost views = cst_views(nodes@);
        let mut i: usize = 0;
        assert(output@ =~= before + cst_printed_all(views, 0, margin@));
        while i < nodes.len()
            invariant
                i <= nodes.len(),
                views == cst_views(nodes@),
                output@ == before + cst_printed_all(views, i as nat, margin@),
            decreases nodes.len() - i,
        {
            nodes[i].pretty_print_internal(output, margin);
            i += 1;
            assert(output@ =~= before + cst_printed_all(views, i as nat, margin@));
        }
    }
}

impl ASTNode {
    /// The tree written out, one node on a line, children two spaces deeper
    /// than their parent.
    pub fn pretty_print(&self) -> (output: String)
        ensures
            output@ == ast_printed(self@, Seq::empty()),
    {
        let mut output = String::new();
        proof {
            reveal_strlit("");
            assert(""@ =~= Seq::<char>::empty());
        }
        self.pretty_print_internal(&mut output, "");
        assert(output@ =~= ast_printed(self@, Seq::empty()));
        output
    }

    /// Appends the line that opens a node which holds children.
    fn push_opening(&self, output: &mut String)
        requires
            self@.is_container(),
        ensures
            final(output)@ == old(output)@ + ast_opening(self@),
    {
        let ghost before = output@;
        match self {
            ASTNode::Document(_) => {
                output.append("Document {\n");
            },
            ASTNode::Heading { level, .. } => {
                output.append("Heading Level ");
                push_decimal(output, *level as usize);
                output.append(" {\n");
                assert(output@ =~= before + ast_opening(self@));
            },
            ASTNode::Paragraph(_) => {
                output.append("Paragraph {\n");
            },
            ASTNode::Bold(_) => {
                output.append("Bold {\n");
            },
            ASTNode::Italic(_) => {
                output.append("Italic {\n");
            },
            _ => {},
        }
    }

    /// Appends a node that holds no children.
    fn push_leaf(&self, output: &mut String, margin: &str)
        requires
            !self@.is_container(),
        ensures
            final(output)@ == old(output)@ + ast_printed(self@, margin@),
    {
        let ghost before = output@;
        match self {
            ASTNode::Text(content) => {
                output.append(margin);
                output.append("Text: \"");
                output.append(content.as_str());
                output.append("\"\n");
                assert(output@ =~= before + ast_printed(self@, margin@));
            },
            ASTNode::LineBreak => {
                output.append(margin);
                output.append("LineBreak\n");
                assert(output@ =~= before + ast_printed(self@, margin@));
            },
            _ => {
                assert(output@ =~= before + ast_printed(self@, margin@));
            },
        }
    }

    /// Appends the tree, written out behind a margin.
    fn pretty_print_internal(&self, output: &mut String, margin: &str)
        ensures
            final(output)@ == old(output)@ + ast_printed(self@, margin@),
        decreases self, 1nat,
    {
        let ghost before = output@;
        match self.children() {
            Some(children) => {
                output.append(margin);
                self.push_opening(output);
                let inner = deeper_margin(margin);
                Self::pretty_print_all(children, output, inner.as_str());
                push_closing(output, margin);
                assert(output@ =~= before + margin@ + ast_opening(self@) + ast_printed_all(
                    self@.children(),
                    self@.children().len(),
                    deeper(margin@),
                ) + margin@ + "}\n"@);
            },
            None => {
                self.push_leaf(output, margin);
            },
        }
    }

    /// Appends `nodes`, written out behind a margin.
    fn pretty_print_all(nodes: &Vec<ASTNode>, output: &mut String, margin: &str)
        ensures
            final(output)@ == old(output)@ + ast_printed_all(
                ast_views(nodes@),
                nodes@.len(),
                margin@,
            ),
        decreases nodes, 0nat,
    {
        let ghost before = output@;
        let ghost views = ast_views(nodes@);
        let mut i: usize = 0;
        assert(output@ =~= before + ast_printed_all(views, 0, margin@));
        while i < nodes.len()
            invariant
                i <= nodes.len(),
                views == ast_views(nodes@),
                output@ == before + ast_printed_all(views, i as nat, margin@),
            decreases nodes.len() - i,
        {
            nodes[i].pretty_print_internal(output, margin);
            i += 1;
            assert(output@ =~= before + ast_printed_all(views, i as nat, margin@));
        }
    }
}

} // verus!
