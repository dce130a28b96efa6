use neorg::node::{ASTNode, CSTNode, SyntaxError};
use neorg::parse::Parser;

#[test]
fn a_concrete_tree_written_out() {
    let (cst, _) = Parser::new("* T\na**b**\n").parse().unwrap();
    assert_eq!(
        cst.pretty_print(),
        "Document (span: Span { start: 0, end: 11, line: 1, column: 1 }) {\n\
         \x20 Heading Level 1 (span: Span { start: 0, end: 3, line: 1, column: 1 }, markers: Span { start: 0, end: 2, line: 1, column: 1 }) {\n\
         \x20   Text (span: Span { start: 2, end: 3, line: 1, column: 3 }): \"T\"\n\
         \x20 }\n\
         \x20 Paragraph (span: Span { start: 4, end: 10, line: 2, column: 1 }) {\n\
         \x20   Text (span: Span { start: 4, end: 5, line: 2, column: 1 }): \"a\"\n\
         \x20   Bold (span: Span { start: 5, end: 10, line: 2, column: 2 }, markers: Span { start: 5, end: 7, line: 2, column: 2 }) {\n\
         \x20     Text (span: Span { start: 7, end: 8, line: 2, column: 4 }): \"b\"\n\
         \x20   }\n\
         \x20 }\n\
         }\n"
    );
}

#[test]
fn an_abstract_tree_written_out() {
    let (_, ast) = Parser::new("** T\n*a\nb*").parse().unwrap();
    assert_eq!(
        ast.pretty_print(),
        "Document {\n\
         \x20 Heading Level 2 {\n\
         \x20   Text: \"T\"\n\
         \x20 }\n\
         \x20 Paragraph {\n\
         \x20   Italic {\n\
         \x20     Text: \"a\"\n\
         \x20     LineBreak\n\
         \x20     Text: \"b\"\n\
         \x20   }\n\
         \x20 }\n\
         }\n"
    );
}

#[test]
fn error_nodes_are_left_out() {
    let error = CSTNode::Error { text: "x".to_string(), error: SyntaxError::new("bad") };
    assert_eq!(error.pretty_print(), "");
    assert_eq!(ASTNode::Error("x".to_string()).pretty_print(), "");
    assert_eq!(ASTNode::Document(vec![ASTNode::Error("x".to_string())]).pretty_print(), "Document {\n}\n");
    let (cst, _) = Parser::new("a\nb").parse().unwrap();
    let printed = cst.pretty_print();
    assert!(printed.contains("LineBreak") == false);
    assert!(printed.contains("  Paragraph (span: Span { start: 2, end: 3, line: 2, column: 1 }) {\n"));
}
