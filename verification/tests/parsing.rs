use neorg::error::MarkdownError;
use neorg::format::{FormattingOptions, MarkdownFormatter};
use neorg::kind::SyntaxKind;
use neorg::node::{ASTNode, CSTNode, SyntaxError};
use neorg::parse::Parser;
use neorg::span::Span;
use neorg::validate::MarkdownValidator;

fn parse(input: &str) -> (CSTNode, ASTNode) {
    Parser::new(input).parse().unwrap()
}

fn text(content: &str) -> ASTNode {
    ASTNode::Text(content.to_string())
}

#[test]
fn test_basic_parsing() {
    let input = "# Heading 1\nThis is a paragraph with **bold** and *italic* text.";
    let mut parser = Parser::new(input);
    let (cst, ast) = parser.parse().unwrap();

    assert!(matches!(cst, CSTNode::Document { .. }));
    assert!(matches!(ast, ASTNode::Document(..)));
}

#[test]
fn test_validation() {
    let input = "# Heading\n\n## Second Heading\n\nParagraph";
    let mut parser = Parser::new(input);
    let (cst, _) = parser.parse().unwrap();

    let mut validator = MarkdownValidator::new();
    assert!(validator.validate(&cst).is_ok());
}

#[test]
fn test_formatting() {
    let input = "# Heading\nText";
    let mut parser = Parser::new(input);
    let (cst, _) = parser.parse().unwrap();

    let options = FormattingOptions::default();
    let formatted = parser.format(&cst, options).unwrap();
    assert!(formatted.contains("# Heading"));
}

#[test]
fn heading_with_one_marker() {
    let (cst, ast) = parse("* H\n");
    assert_eq!(
        ast,
        ASTNode::Document(vec![ASTNode::Heading { level: 1, content: vec![text("H")] }])
    );
    assert_eq!(
        cst,
        CSTNode::Document {
            children: vec![CSTNode::Heading {
                level: 1,
                content: vec![CSTNode::Text {
                    content: "H".to_string(),
                    span: Span::new(2, 3, 1, 3),
                }],
                markers: Span::new(0, 2, 1, 1),
                span: Span::new(0, 3, 1, 1),
            }],
            span: Span::new(0, 4, 1, 1),
        }
    );
}

#[test]
fn doubled_marker_is_bold_not_a_heading() {
    let (cst, ast) = parse("**b**");
    assert_eq!(
        ast,
        ASTNode::Document(vec![ASTNode::Paragraph(vec![ASTNode::Bold(vec![text("b")])])])
    );
    assert_eq!(
        cst,
        CSTNode::Document {
            children: vec![CSTNode::Paragraph {
                content: vec![CSTNode::Bold {
                    content: vec![CSTNode::Text {
                        content: "b".to_string(),
                        span: Span::new(2, 3, 1, 3),
                    }],
                    markers: Span::new(0, 2, 1, 1),
                    span: Span::new(0, 5, 1, 1),
                }],
                span: Span::new(0, 5, 1, 1),
            }],
            span: Span::new(0, 5, 1, 1),
        }
    );
}

#[test]
fn heading_then_paragraph_with_slanted_text() {
    let (_, ast) = parse("* Title\nBody /em/.");
    assert_eq!(
        ast,
        ASTNode::Document(vec![
            ASTNode::Heading { level: 1, content: vec![text("Title")] },
            ASTNode::Paragraph(vec![
                text("Body "),
                ASTNode::Italic(vec![text("em")]),
                text("."),
            ]),
        ])
    );
}

#[test]
fn text_without_markers_is_paragraphs_of_text() {
    let input = "first line\n\nsecond line";
    let (cst, ast) = parse(input);
    assert_eq!(
        ast,
        ASTNode::Document(vec![
            ASTNode::Paragraph(vec![text("first line")]),
            ASTNode::Paragraph(vec![text("second line")]),
        ])
    );
    assert_eq!(*cst.span(), Span::new(0, 23, 1, 1));
    assert!(cst.find_by_kind(SyntaxKind::Error).is_empty());
    let paragraphs = cst.find_by_kind(SyntaxKind::Paragraph);
    assert_eq!(paragraphs.len(), 2);
    assert_eq!(*paragraphs[1].span(), Span::new(12, 23, 3, 1));
}

#[test]
fn empty_input_is_an_empty_document() {
    let (cst, ast) = parse("");
    assert_eq!(ast, ASTNode::Document(vec![]));
    assert_eq!(cst, CSTNode::Document { children: vec![], span: Span::new(0, 0, 1, 1) });
}

#[test]
fn line_feeds_alone_make_no_block() {
    let (cst, _) = parse("\n\n\n");
    assert_eq!(cst, CSTNode::Document { children: vec![], span: Span::new(0, 3, 1, 1) });
}

#[test]
fn six_markers_are_the_deepest_heading() {
    let (_, ast) = parse("****** deep");
    assert_eq!(
        ast,
        ASTNode::Document(vec![ASTNode::Heading { level: 6, content: vec![text("deep")] }])
    );
}

#[test]
fn seven_markers_give_a_heading_of_level_six() {
    let mut p = Parser::new("******* x");
    let (_, ast) = p.parse().unwrap();
    match &ast {
        ASTNode::Document(children) => {
            assert!(matches!(children[0], ASTNode::Heading { level: 6, .. }));
        }
        _ => unreachable!(),
    }
}

#[test]
fn markers_beyond_the_sixth_are_an_error_in_the_heading() {
    let (cst, ast) = parse("********* deep\nnext");
    assert_eq!(
        ast,
        ASTNode::Document(vec![
            ASTNode::Heading { level: 6, content: vec![ASTNode::Error("***".to_string())] },
            ASTNode::Paragraph(vec![text(" deep")]),
            ASTNode::Paragraph(vec![text("next")]),
        ])
    );
    assert_eq!(
        cst.children().unwrap()[0],
        CSTNode::Heading {
            level: 6,
            content: vec![CSTNode::Error {
                text: "***".to_string(),
                error: SyntaxError {
                    span: Span::new(6, 9, 1, 7),
                    message: "heading nested deeper than six levels".to_string(),
                    hints: vec!["use at most six `*` in front of the heading text".to_string()],
                },
            }],
            markers: Span::new(0, 6, 1, 1),
            span: Span::new(0, 9, 1, 1),
        }
    );
    assert_eq!(cst.find_by_kind(SyntaxKind::Error).len(), 1);
}

#[test]
fn many_markers_without_white_space_open_no_heading() {
    let (_, ast) = parse("*******x");
    assert!(matches!(&ast, ASTNode::Document(children)
        if matches!(children[0], ASTNode::Paragraph(_))));
}

#[test]
fn markers_without_white_space_open_no_heading() {
    let (_, ast) = parse("*slanted*");
    assert_eq!(
        ast,
        ASTNode::Document(vec![ASTNode::Paragraph(vec![ASTNode::Italic(vec![text("slanted")])])])
    );
}

#[test]
fn emphasis_closes_where_the_input_ends() {
    let (cst, ast) = parse("a*b");
    assert_eq!(
        ast,
        ASTNode::Document(vec![ASTNode::Paragraph(vec![
            text("a"),
            ASTNode::Italic(vec![text("b")]),
        ])])
    );
    let italics = cst.find_by_kind(SyntaxKind::Italic);
    assert_eq!(*italics[0].span(), Span::new(1, 3, 1, 2));
    assert_eq!(*cst.span(), Span::new(0, 3, 1, 1));
}

#[test]
fn bold_closes_where_the_input_ends() {
    let (cst, ast) = parse("__b");
    assert_eq!(
        ast,
        ASTNode::Document(vec![ASTNode::Paragraph(vec![ASTNode::Bold(vec![text("b")])])])
    );
    assert_eq!(*cst.find_by_kind(SyntaxKind::Bold)[0].span(), Span::new(0, 3, 1, 1));
}

#[test]
fn underscores_and_slashes_mark_emphasis_too() {
    let (_, ast) = parse("__b__ _i_ //c//");
    assert_eq!(
        ast,
        ASTNode::Document(vec![ASTNode::Paragraph(vec![
            ASTNode::Bold(vec![text("b")]),
            text(" "),
            ASTNode::Italic(vec![text("i")]),
            text(" "),
            ASTNode::Bold(vec![text("c")]),
        ])])
    );
}

#[test]
fn emphasis_nests() {
    let (_, ast) = parse("**a _b_ c**");
    assert_eq!(
        ast,
        ASTNode::Document(vec![ASTNode::Paragraph(vec![ASTNode::Bold(vec![
            text("a "),
            ASTNode::Italic(vec![text("b")]),
            text(" c"),
        ])])])
    );
}

#[test]
fn a_line_feed_inside_emphasis_is_a_line_break() {
    let (_, ast) = parse("*a\nb*");
    assert_eq!(
        ast,
        ASTNode::Document(vec![ASTNode::Paragraph(vec![ASTNode::Italic(vec![
            text("a"),
            ASTNode::LineBreak,
            text("b"),
        ])])])
    );
}

#[test]
fn a_heading_takes_one_inline_node() {
    let (_, ast) = parse("** Two *parts*");
    assert_eq!(
        ast,
        ASTNode::Document(vec![
            ASTNode::Heading { level: 2, content: vec![text("Two ")] },
            ASTNode::Paragraph(vec![ASTNode::Italic(vec![text("parts")])]),
        ])
    );
}

#[test]
fn spans_carry_the_line_and_column_of_their_start() {
    let (cst, _) = parse("ab\n* H\ncd *e*");
    let headings = cst.find_by_kind(SyntaxKind::Heading);
    assert_eq!(headings.len(), 1);
    assert_eq!(*headings[0].span(), Span::new(3, 6, 2, 1));
    let italics = cst.find_by_kind(SyntaxKind::Italic);
    assert_eq!(*italics[0].span(), Span::new(10, 13, 3, 4));
}

#[test]
fn offsets_count_characters_not_bytes() {
    let (cst, _) = parse("é *b*");
    let italics = cst.find_by_kind(SyntaxKind::Italic);
    assert_eq!(*italics[0].span(), Span::new(2, 5, 1, 3));
}

#[test]
fn parsing_twice_finds_nothing_left() {
    let mut parser = Parser::new("abc");
    let (first, _) = parser.parse().unwrap();
    let (second, _) = parser.parse().unwrap();
    assert_eq!(*first.span(), Span::new(0, 3, 1, 1));
    assert_eq!(second, CSTNode::Document { children: vec![], span: Span::new(3, 3, 1, 4) });
}

#[test]
fn finding_by_kind_lists_in_document_order() {
    let (cst, _) = parse("* A\nb\n** C\n*** D");
    let headings = cst.find_by_kind(SyntaxKind::Heading);
    let levels: Vec<u8> = headings
        .iter()
        .map(|node| match node {
            CSTNode::Heading { level, .. } => *level,
            _ => 0,
        })
        .collect();
    assert_eq!(levels, vec![1, 2, 3]);
    assert_eq!(cst.find_by_kind(SyntaxKind::Document).len(), 1);
    assert_eq!(cst.find_by_kind(SyntaxKind::Text).len(), 4);
    assert_eq!(cst.find_by_kind(SyntaxKind::LineBreak).len(), 0);
}

#[test]
fn finding_by_span_wants_the_very_span() {
    let (cst, _) = parse("**b**");
    let found = cst.find_by_span(&Span::new(0, 5, 1, 1));
    let kinds: Vec<SyntaxKind> = found.iter().map(|node| node.kind()).collect();
    assert_eq!(kinds, vec![SyntaxKind::Document, SyntaxKind::Paragraph, SyntaxKind::Bold]);
    assert!(cst.find_by_span(&Span::new(0, 5, 1, 2)).is_empty());
}

#[test]
fn traversal_lists_each_node_before_its_children() {
    let (cst, _) = parse("a*b*");
    let mut nodes = Vec::new();
    cst.traverse_for(&mut nodes);
    let kinds: Vec<SyntaxKind> = nodes.iter().map(|node| node.kind()).collect();
    assert_eq!(
        kinds,
        vec![
            SyntaxKind::Document,
            SyntaxKind::Paragraph,
            SyntaxKind::Text,
            SyntaxKind::Italic,
            SyntaxKind::Text,
        ]
    );
}

#[test]
fn text_spans_leave_the_markers_out() {
    let (cst, _) = parse("** Title\n**bold** /it/");
    let heading = cst.find_by_kind(SyntaxKind::Heading)[0];
    assert_eq!(heading.text_span(), Span::new(3, 8, 1, 1));
    let bold = cst.find_by_kind(SyntaxKind::Bold)[0];
    assert_eq!(bold.text_span(), Span::new(11, 15, 2, 1));
    let italic = cst.find_by_kind(SyntaxKind::Italic)[0];
    assert_eq!(italic.text_span(), Span::new(19, 21, 2, 10));
    let paragraph = cst.find_by_kind(SyntaxKind::Paragraph)[0];
    assert_eq!(paragraph.text_span(), Span::new(11, 21, 2, 1));
    assert_eq!(cst.text_span(), Span::new(0, 0, 1, 1));
}

#[test]
fn text_span_of_empty_emphasis_is_empty() {
    let (cst, _) = parse("a**");
    let bold = cst.find_by_kind(SyntaxKind::Bold)[0];
    assert_eq!(bold.text_span(), Span::new(3, 3, 1, 2));
}

#[test]
fn only_containers_have_children() {
    let (cst, ast) = parse("a\n");
    assert_eq!(cst.children().unwrap().len(), 1);
    let text_node = cst.find_by_kind(SyntaxKind::Text)[0];
    assert!(text_node.children().is_none());
    assert_eq!(text_node.text(), Some("a"));
    assert_eq!(cst.text(), None);
    assert_eq!(ast.children().unwrap().len(), 1);
    assert_eq!(ast.text(), None);
    assert_eq!(text("x").text(), Some("x"));
    assert!(ASTNode::LineBreak.children().is_none());
}

#[test]
fn the_abstract_tree_keeps_the_text_of_an_error() {
    let node = CSTNode::Error { text: "oops".to_string(), error: SyntaxError::new("bad") };
    assert_eq!(node.to_ast(), ASTNode::Error("oops".to_string()));
    assert_eq!(*node.span(), Span::detached());
    assert_eq!(node.text_span(), Span::detached());
}

#[test]
fn syntax_errors_compare_without_their_spans() {
    let mut first = SyntaxError::new("bad");
    let mut second = SyntaxError::new("bad");
    second.span = Span::new(3, 4, 1, 4);
    assert!(first.spanless_eq(&second));
    first.hints.push("try this".to_string());
    assert!(!first.spanless_eq(&second));
    second.hints.push("try that".to_string());
    assert!(!first.spanless_eq(&second));
    assert!(!SyntaxError::new("bad").spanless_eq(&SyntaxError::new("worse")));
    assert_eq!(SyntaxError::new("bad").span, Span::detached());
    assert!(SyntaxError::new("bad").hints.is_empty());
}

#[test]
fn the_parser_judges_and_writes() {
    let mut parser = Parser::new("* T\nbody");
    let (cst, _) = parser.parse().unwrap();
    assert!(parser.validate(&cst).is_ok());
    let empty = CSTNode::Heading {
        level: 1,
        content: vec![],
        markers: Span::new(0, 1, 1, 1),
        span: Span::new(0, 1, 1, 1),
    };
    assert_eq!(
        parser.validate(&empty),
        Err(MarkdownError::ValidationError("empty_heading: Headings must not be empty".to_string()))
    );
    let mut formatter = MarkdownFormatter::new(FormattingOptions::default());
    assert_eq!(
        parser.format(&cst, FormattingOptions::default()),
        formatter.format(&cst)
    );
}
