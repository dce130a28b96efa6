use ecow::EcoString;
use neorg::lang::{tokenize, tokenize_pieces, Node, NodeKind, Parser, Span, SyntaxKind, Token};

fn token(kind: SyntaxKind, text: &str, span: usize) -> Token {
    Token::new(kind, EcoString::from(text), span)
}

fn shape(node: &Node) -> (NodeKind, Vec<String>) {
    (
        node.kind,
        node.children
            .iter()
            .map(|child| child.token.as_ref().unwrap().text.to_string())
            .collect(),
    )
}

#[test]
fn token_span_001() {
    let input = (0, "Heading");

    let new = Token::new(SyntaxKind::Space, input.1.into(), input.0);

    assert_eq!(Span::new(0, 7), new.to_span(input.0))
}

#[test]
fn a_token_covers_the_bytes_of_its_text() {
    assert_eq!(token(SyntaxKind::Text, "héé", 4).to_span(10), Span::new(10, 15));
    assert_eq!(token(SyntaxKind::Text, "", 0).to_span(3), Span::new(3, 3));
}

#[test]
fn words_become_tokens() {
    let tokens = tokenize("* heading\n a/b");
    let seen: Vec<(SyntaxKind, String, usize)> =
        tokens.iter().map(|t| (t.kind, t.text.to_string(), t.span)).collect();
    assert_eq!(
        seen,
        vec![
            (SyntaxKind::HeadingMarker, "*".to_string(), 0),
            (SyntaxKind::Space, " ".to_string(), 1),
            (SyntaxKind::Text, "heading".to_string(), 2),
            (SyntaxKind::Newline, "\n".to_string(), 9),
            (SyntaxKind::Space, " ".to_string(), 10),
            (SyntaxKind::Text, "a".to_string(), 11),
            (SyntaxKind::Slash, "/".to_string(), 12),
            (SyntaxKind::Text, "b".to_string(), 13),
        ]
    );
    assert!(tokenize("").is_empty());
}

#[test]
fn pieces_given_by_hand_become_tokens() {
    let tokens = tokenize_pieces(&vec![(0, "  "), (2, "*"), (3, "**")]);
    let kinds: Vec<SyntaxKind> = tokens.iter().map(|t| t.kind).collect();
    assert_eq!(kinds, vec![SyntaxKind::Text, SyntaxKind::HeadingMarker, SyntaxKind::Text]);
    assert_eq!(tokens[2].span, 3);
}

#[test]
fn every_line_of_words_is_a_paragraph() {
    let mut parser = Parser::new(tokenize("* heading\nthis is\n"));
    let nodes = parser.parse();
    let shapes: Vec<(NodeKind, Vec<String>)> = nodes.iter().map(shape).collect();
    assert_eq!(
        shapes,
        vec![
            (
                NodeKind::Paragraph,
                vec!["*".to_string(), " ".to_string(), "heading".to_string()]
            ),
            (NodeKind::Paragraph, vec!["this".to_string(), " ".to_string(), "is".to_string()]),
        ]
    );
    assert!(nodes[0].token.is_none());
    assert_eq!(nodes[0].children[0].kind, NodeKind::Text);
    assert!(parser.parse().is_empty());
}

#[test]
fn a_line_that_starts_with_an_asterisk_token_is_a_heading() {
    let tokens = vec![
        token(SyntaxKind::Asterisk, "*", 0),
        token(SyntaxKind::Text, "h", 1),
        token(SyntaxKind::Newline, "\n", 2),
        token(SyntaxKind::Newline, "\n", 3),
        token(SyntaxKind::Text, "p", 4),
    ];
    let mut parser = Parser::new(tokens);
    let shapes: Vec<(NodeKind, Vec<String>)> = parser.parse().iter().map(shape).collect();
    assert_eq!(
        shapes,
        vec![
            (NodeKind::Heading, vec!["*".to_string(), "h".to_string()]),
            (NodeKind::Paragraph, vec![]),
            (NodeKind::Paragraph, vec!["p".to_string()]),
        ]
    );
}

#[test]
fn reading_word_by_word() {
    let mut parser = Parser::new(tokenize("a b"));
    assert_eq!(parser.peek().unwrap().text, "a");
    assert_eq!(parser.advance().unwrap().text, "a");
    assert_eq!(parser.advance().unwrap().kind, SyntaxKind::Space);
    assert_eq!(shape(&parser.parse_heading()), (NodeKind::Heading, vec!["b".to_string()]));
    assert!(parser.peek().is_none());
    assert!(parser.advance().is_none());
    assert_eq!(shape(&parser.parse_paragraph()), (NodeKind::Paragraph, vec![]));
    let leaf = Node::new(NodeKind::Text, None);
    assert!(leaf.children.is_empty() && leaf.token.is_none());
}
