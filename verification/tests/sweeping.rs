use neorg::document::DocumentState;
use neorg::format::FormattingOptions;
use neorg::kind::SyntaxKind;
use neorg::lexer::Lexer;
use neorg::node::CSTNode;
use neorg::span::Span;

const ALPHABET: [char; 7] = ['*', '_', '/', '\n', ' ', 'a', 'é'];

fn texts(longest: usize) -> Vec<String> {
    let mut all = vec![String::new()];
    let mut last = vec![String::new()];
    for _ in 0..longest {
        let mut next = Vec::new();
        for text in &last {
            for c in ALPHABET {
                let mut longer = text.clone();
                longer.push(c);
                next.push(longer);
            }
        }
        all.extend(next.iter().cloned());
        last = next;
    }
    all
}

fn nests(node: &CSTNode, from: usize, to: usize) -> bool {
    let span = *node.span();
    if !(from <= span.start && span.start <= span.end && span.end <= to) {
        return false;
    }
    let inner = match node {
        CSTNode::Heading { markers, .. }
        | CSTNode::Bold { markers, .. }
        | CSTNode::Italic { markers, .. } => {
            if markers.start != span.start || markers.end > span.end {
                return false;
            }
            markers.end
        }
        _ => span.start,
    };
    let mut at = inner;
    if let Some(children) = node.children() {
        for child in children {
            if !nests(child, at, span.end) {
                return false;
            }
            at = child.span().end;
        }
    }
    true
}

#[test]
fn every_short_text_parses_into_a_well_laid_tree() {
    for text in texts(5) {
        let length = text.chars().count();
        let state = DocumentState::open(&text);
        assert_eq!(state.text(), text);
        let tree = state.cst();
        assert_eq!(*tree.span(), Span::new(0, length, 1, 1));
        assert!(nests(tree, 0, length), "{text:?}");
        for heading in tree.find_by_kind(SyntaxKind::Heading) {
            match heading {
                CSTNode::Heading { level, content, .. } => {
                    assert!((1..=6).contains(level));
                    assert_eq!(content.len(), 1);
                }
                _ => unreachable!(),
            }
        }
        for node in tree.find_by_kind(SyntaxKind::Bold) {
            let text_span = node.text_span();
            assert!(node.span().start <= text_span.start, "{text:?}");
            assert!(text_span.start <= text_span.end && text_span.end <= node.span().end);
        }
        assert!(state.diagnostics().is_empty());
        let formatted = state.formatting(FormattingOptions::default()).unwrap();
        assert_eq!(formatted.range, state.whole_range());
        for position in 0..=length {
            let place = state.position_at(position).unwrap();
            assert_eq!(state.offset_at(place), Some(position));
            state.words_at(place);
        }
        state.semantic_tokens();
    }
}

#[test]
fn text_without_markers_is_written_the_same_again() {
    for text in texts(6) {
        if text.contains(['*', '_', '/']) {
            continue;
        }
        let once = DocumentState::open(&text).formatting(FormattingOptions::default()).unwrap();
        let twice =
            DocumentState::open(&once.new_text).formatting(FormattingOptions::default()).unwrap();
        assert_eq!(once.new_text, twice.new_text);
    }
}

#[test]
fn every_short_text_has_tokens_within_it() {
    for text in texts(5) {
        let length = text.chars().count();
        let mut end = 0;
        for token in Lexer::lex_spanned(&text) {
            assert!(end <= token.span.start, "{text:?}");
            assert!(token.span.start < token.span.end && token.span.end <= length, "{text:?}");
            end = token.span.end;
        }
        assert_eq!(Lexer::lex(&text).len(), Lexer::lex_spanned(&text).len());
    }
}
