//! How the spans of a tree lie in its text: every node within its parent,
//! the children of a node one behind another, the markers in front of the
//! content.

use vstd::prelude::*;

use crate::node::{greatest_text_end, last_text_end, least_text_start, Cst};
use crate::parse::{
    blank_run_end, blocks_from, closes_emphasis, document_from, emphasis_at,
    emphasis_items, heading_at, inline_at, is_emphasis_marker, lemma_blank_run_end_bounds,
    lemma_star_run_end_bounds, lemma_text_run_end_bounds, marks_heading, level_end,
    all_inline, char_at, is_block, is_inline, excess_at, lemma_inside_star_run, paragraph_at,
    paragraph_items, star_run_end,
};

verus! {

/// Whether the spans of a tree nest: no span ends before it starts; the
/// children of a node lie within it, one behind another; markers stand at
/// the start of their node and the content behind them; text, line breaks
/// and error nodes are as long as what they hold.
pub open spec fn spans_nest(node: Cst) -> bool
    decreases node, 0nat,
{
    match node {
        Cst::Document { children, span } => span.wf() && children_in_order(
            children,
            0,
            span.start as int,
            span.end as int,
        ),
        Cst::Heading { content, markers, span, .. } => span.wf() && markers.start == span.start
            && markers.wf() && children_in_order(content, 0, markers.end as int, span.end as int),
        Cst::Paragraph { content, span } => span.wf() && children_in_order(
            content,
            0,
            span.start as int,
            span.end as int,
        ),
        Cst::Bold { content, markers, span } => span.wf() && markers.start == span.start
            && markers.wf() && children_in_order(content, 0, markers.end as int, span.end as int),
        Cst::Italic { content, markers, span } => span.wf() && markers.start == span.start
            && markers.wf() && children_in_order(content, 0, markers.end as int, span.end as int),
        Cst::Text { content, span } => span.wf() && content.len() == span.end - span.start,
        Cst::LineBreak { span } => span.end == span.start + 1,
        Cst::Error { text, error } => error.span.wf() && text.len() == error.span.end
            - error.span.start,
    }
}

/// Whether the nodes from index `index` on lie between `from` and `to`, one
/// behind another, each with nesting spans.
pub open spec fn children_in_order(nodes: Seq<Cst>, index: int, from: int, to: int) -> bool
    decreases nodes, nodes.len() - index,
{
    if index < 0 || index >= nodes.len() {
        from <= to
    } else {
        from <= nodes[index].span().start && spans_nest(nodes[index]) && children_in_order(
            nodes,
            index + 1,
            nodes[index].span().end as int,
            to,
        )
    }
}

/// Nodes in order stay in order with one more node in front of them.
pub proof fn lemma_in_order_behind(first: Cst, rest: Seq<Cst>, index: int, from: int, to: int)
    requires
        0 <= index <= rest.len(),
        children_in_order(rest, index, from, to),
    ensures
        children_in_order(seq![first] + rest, index + 1, from, to),
    decreases rest.len() - index,
{
    let all = seq![first] + rest;
    if index < rest.len() {
        assert(all[index + 1] == rest[index]);
        lemma_in_order_behind(first, rest, index + 1, rest[index].span().end as int, to);
    }
}

/// Nodes in order lie between their bounds, and so does each of them.
pub proof fn lemma_in_order_bounds(nodes: Seq<Cst>, index: int, from: int, to: int)
    requires
        0 <= index <= nodes.len(),
        children_in_order(nodes, index, from, to),
    ensures
        from <= to,
        forall|i: int|
            index <= i < nodes.len() ==> from <= (#[trigger] nodes[i]).span().start
                && nodes[i].span().start <= nodes[i].span().end && nodes[i].span().end <= to
                && spans_nest(nodes[i]),
    decreases nodes.len() - index,
{
    if index < nodes.len() {
        lemma_span_wf(nodes[index]);
        lemma_in_order_bounds(nodes, index + 1, nodes[index].span().end as int, to);
    }
}

/// A node with nesting spans does not end before it starts.
pub proof fn lemma_span_wf(node: Cst)
    requires
        spans_nest(node),
    ensures
        node.span().start <= node.span().end,
{
}

/// Whether a node with nesting spans covers the text from `start` to `end`.
pub open spec fn covers(node: Cst, start: int, end: int) -> bool {
    spans_nest(node) && node.span().start == start && node.span().end == end
}

/// An inline node covers the text from where it starts to where it ends.
pub proof fn lemma_inline_layout(text: Seq<char>, pos: int)
    requires
        0 <= pos <= text.len() <= usize::MAX,
    ensures
        pos <= inline_at(text, pos).1 <= text.len(),
        pos < text.len() ==> pos < inline_at(text, pos).1,
        covers(inline_at(text, pos).0, pos, inline_at(text, pos).1),
    decreases text.len() - pos, 2nat,
{
    lemma_text_run_end_bounds(text, pos);
    if pos < text.len() {
        lemma_text_run_end_bounds(text, pos + 1);
    }
    if pos < text.len() && is_emphasis_marker(text[pos]) {
        lemma_emphasis_layout(text, pos, char_at(text, pos + 1) == text[pos]);
    }
}

/// A bold or italic node covers the text from its opening marker to where it
/// ends.
pub proof fn lemma_emphasis_layout(text: Seq<char>, pos: int, double: bool)
    requires
        0 <= pos < text.len() <= usize::MAX,
        double ==> pos + 1 < text.len(),
    ensures
        pos < emphasis_at(text, pos, double).1 <= text.len(),
        covers(emphasis_at(text, pos, double).0, pos, emphasis_at(text, pos, double).1),
    decreases text.len() - pos, 1nat,
{
    let width: int = if double {
        2
    } else {
        1
    };
    lemma_items_layout(text, pos + width, text[pos], double);
    let (content, stop) = emphasis_items(text, pos + width, text[pos], double);
    let end = emphasis_at(text, pos, double).1;
    lemma_in_order_reaches(content, 0, pos + width, stop, end);
}

/// Nodes in order up to `to` are in order up to every place behind `to`.
pub proof fn lemma_in_order_reaches(nodes: Seq<Cst>, index: int, from: int, to: int, further: int)
    requires
        0 <= index <= nodes.len(),
        children_in_order(nodes, index, from, to),
        to <= further,
    ensures
        children_in_order(nodes, index, from, further),
    decreases nodes.len() - index,
{
    if index < nodes.len() {
        lemma_in_order_reaches(nodes, index + 1, nodes[index].span().end as int, to, further);
    }
}

/// The nodes inside a bold or italic node lie in order between where they
/// start and where they end.
pub proof fn lemma_items_layout(text: Seq<char>, pos: int, marker: char, double: bool)
    requires
        0 <= pos <= text.len() <= usize::MAX,
    ensures
        pos <= emphasis_items(text, pos, marker, double).1 <= text.len(),
        children_in_order(
            emphasis_items(text, pos, marker, double).0,
            0,
            pos,
            emphasis_items(text, pos, marker, double).1,
        ),
    decreases text.len() - pos, 3nat,
{
    if pos < text.len() && !closes_emphasis(text, pos, marker, double) {
        lemma_inline_layout(text, pos);
        let (first, next) = inline_at(text, pos);
        lemma_items_layout(text, next, marker, double);
        let (rest, end) = emphasis_items(text, next, marker, double);
        lemma_in_order_behind(first, rest, 0, next, end);
        assert((seq![first] + rest)[0] == first);
    }
}

/// The nodes of a paragraph lie in order between where they start and where
/// they end.
pub proof fn lemma_paragraph_layout(text: Seq<char>, pos: int)
    requires
        0 <= pos <= text.len() <= usize::MAX,
    ensures
        pos <= paragraph_items(text, pos).1 <= text.len(),
        pos < text.len() && text[pos] != '\n' ==> pos < paragraph_items(text, pos).1,
        children_in_order(paragraph_items(text, pos).0, 0, pos, paragraph_items(text, pos).1),
    decreases text.len() - pos,
{
    if pos < text.len() && text[pos] != '\n' {
        lemma_inline_layout(text, pos);
        let (first, next) = inline_at(text, pos);
        lemma_paragraph_layout(text, next);
        let (rest, end) = paragraph_items(text, next);
        lemma_in_order_behind(first, rest, 0, next, end);
        assert((seq![first] + rest)[0] == first);
    }
}

/// The blocks of a document lie in order between where they start and the
/// end of the text.
pub proof fn lemma_blocks_layout(text: Seq<char>, pos: int)
    requires
        0 <= pos <= text.len() <= usize::MAX,
    ensures
        children_in_order(blocks_from(text, pos), 0, pos, text.len() as int),
    decreases text.len() - pos,
{
    if pos < text.len() {
        if text[pos] == '\n' {
            lemma_blocks_layout(text, pos + 1);
            let blocks = blocks_from(text, pos + 1);
            if blocks.len() > 0 {
                assert(children_in_order(blocks, 0, pos, text.len() as int));
            }
        } else {
            lemma_star_run_end_bounds(text, pos);
            let (block, next) = if marks_heading(text, pos) {
                heading_at(text, pos)
            } else {
                paragraph_at(text, pos)
            };
            if marks_heading(text, pos) {
                let stars = level_end(text, pos);
                if stars < star_run_end(text, pos) {
                    lemma_inside_star_run(text, pos, stars);
                    lemma_star_run_end_bounds(text, stars);
                    let (content, end) = excess_at(text, stars);
                    assert(end == star_run_end(text, pos));
                    assert(text.subrange(stars, end).len() == end - stars);
                    assert(spans_nest(content));
                    assert(content.span().start == stars && content.span().end == end);
                    assert(seq![content][0] == content);
                    assert(children_in_order(seq![content], 1, end, end));
                    assert(children_in_order(seq![content], 0, stars, end));
                } else {
                    lemma_blank_run_end_bounds(text, stars);
                    let body = blank_run_end(text, stars);
                    lemma_inline_layout(text, body);
                    let (content, end) = inline_at(text, body);
                    assert(seq![content][0] == content);
                    assert(children_in_order(seq![content], 1, end, end));
                    assert(children_in_order(seq![content], 0, body, end));
                }
            } else {
                lemma_paragraph_layout(text, pos);
            }
            assert(covers(block, pos, next));
            assert(pos < next <= text.len());
            lemma_blocks_layout(text, next);
            let rest = blocks_from(text, next);
            lemma_in_order_behind(block, rest, 0, next, text.len() as int);
            assert((seq![block] + rest)[0] == block);
        }
    }
}

/// The spans of a parsed document nest, and the document covers the text
/// from where parsing began to its end.
pub proof fn law_parsed_spans_nest(text: Seq<char>, pos: int)
    requires
        0 <= pos <= text.len() <= usize::MAX,
    ensures
        covers(document_from(text, pos), pos, text.len() as int),
{
    lemma_blocks_layout(text, pos);
}

/// In a block, an inline node or an error node with nesting spans the text
/// of a heading, a bold and an italic node begins where its markers end, so
/// that the two never overlap, and the text of every node lies within the
/// node.
pub proof fn law_text_span_within(node: Cst)
    requires
        spans_nest(node),
        is_block(node) || is_inline(node) || node is Error,
    ensures
        node.span().start <= node.text_span().start <= node.text_span().end <= node.span().end,
        node matches Cst::Heading { markers, .. } ==> markers.end <= node.text_span().start,
        node matches Cst::Bold { markers, .. } ==> markers.end <= node.text_span().start,
        node matches Cst::Italic { markers, .. } ==> markers.end <= node.text_span().start,
    decreases node,
{
    match node {
        Cst::Heading { content, markers, span, .. } => {
            assert(is_inline(content[0]) || content[0] is Error);
            lemma_last_text_end(content, markers.end, span.end, node);
        },
        Cst::Bold { content, markers, span } => {
            lemma_last_text_end(content, markers.end, span.end, node);
        },
        Cst::Italic { content, markers, span } => {
            lemma_last_text_end(content, markers.end, span.end, node);
        },
        Cst::Paragraph { content, span } => {
            lemma_in_order_bounds(content, 0, span.start as int, span.end as int);
            lemma_text_bounds(content, content.len(), span.start, span.end, node);
        },
        _ => {},
    }
}

/// The text of the last of some children in order ends between the bounds
/// of the children.
proof fn lemma_last_text_end(nodes: Seq<Cst>, from: usize, to: usize, parent: Cst)
    requires
        children_in_order(nodes, 0, from as int, to as int),
        forall|i: int| 0 <= i < nodes.len() ==> decreases_to!(parent => #[trigger] nodes[i]),
        forall|i: int| 0 <= i < nodes.len() ==> is_inline(#[trigger] nodes[i]) || nodes[i] is Error,
    ensures
        from <= last_text_end(nodes, from) <= to,
    decreases parent, 0nat,
{
    lemma_in_order_bounds(nodes, 0, from as int, to as int);
    if nodes.len() > 0 {
        law_text_span_within(nodes[nodes.len() - 1]);
    }
}

/// The texts of the first `count` of some children in order start and end
/// between the bounds of the children.
proof fn lemma_text_bounds(nodes: Seq<Cst>, count: nat, from: usize, to: usize, parent: Cst)
    requires
        count <= nodes.len(),
        forall|i: int|
            0 <= i < nodes.len() ==> from <= (#[trigger] nodes[i]).span().start && nodes[i].span().end
                <= to && spans_nest(nodes[i]),
        forall|i: int| 0 <= i < nodes.len() ==> decreases_to!(parent => #[trigger] nodes[i]),
        forall|i: int| 0 <= i < nodes.len() ==> is_inline(#[trigger] nodes[i]) || nodes[i] is Error,
    ensures
        count > 0 ==> least_text_start(nodes, count) is Some && greatest_text_end(nodes, count)
            is Some && from <= least_text_start(nodes, count)->0 <= greatest_text_end(
            nodes,
            count,
        )->0 <= to,
    decreases parent, 0nat, count,
{
    if count > 0 {
        law_text_span_within(nodes[count - 1]);
        lemma_text_bounds(nodes, (count - 1) as nat, from, to, parent);
    }
}

} // verus!
