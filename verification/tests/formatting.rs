use neorg::error::MarkdownError;
use neorg::format::{
    EmphasisStyle, FormattingOptions, HeadingStyle, MarkdownFormatter, Visitor,
};
use neorg::node::{ASTNode, CSTNode, SyntaxError};
use neorg::parse::Parser;
use neorg::span::Span;

fn written(input: &str, options: FormattingOptions) -> String {
    let (cst, _) = Parser::new(input).parse().unwrap();
    MarkdownFormatter::new(options).format(&cst).unwrap()
}

fn span() -> Span {
    Span::new(0, 0, 1, 1)
}

fn text(content: &str) -> CSTNode {
    CSTNode::Text { content: content.to_string(), span: span() }
}

#[test]
fn the_default_options() {
    let options = FormattingOptions::default();
    assert_eq!(options.indent_spaces, 4);
    assert_eq!(options.line_width, 80);
    assert!(options.preserve_empty_lines);
    assert_eq!(options.heading_style, HeadingStyle::Atx);
    assert_eq!(options.emphasis_style, EmphasisStyle::Asterisk);
}

#[test]
fn a_new_formatter_has_written_nothing() {
    let formatter = MarkdownFormatter::new(FormattingOptions::default());
    assert_eq!(formatter.output, "");
    assert_eq!(formatter.indent_level, 0);
    assert_eq!(formatter.options, FormattingOptions::default());
}

#[test]
fn blocks_are_parted_by_an_empty_line() {
    assert_eq!(
        written("* Title\nBody **b** /i/", FormattingOptions::default()),
        "# Title\n\nBody **b** *i*"
    );
}

#[test]
fn blocks_are_parted_by_a_line_feed_alone() {
    let options = FormattingOptions { preserve_empty_lines: false, ..FormattingOptions::default() };
    assert_eq!(written("a\n\n\nb", options), "a\nb");
}

#[test]
fn heading_levels_are_counted_in_hashes() {
    assert_eq!(written("*** Deep", FormattingOptions::default()), "### Deep");
}

#[test]
fn the_children_of_a_heading_are_joined_by_spaces() {
    let heading =
        CSTNode::Heading { level: 2, content: vec![text("a"), text("b")], markers: span(), span: span() };
    let mut formatter = MarkdownFormatter::new(FormattingOptions::default());
    assert_eq!(formatter.format(&heading), Ok("## a b".to_string()));
}

#[test]
fn setext_headings_are_underlined_as_wide_as_their_text() {
    let options =
        FormattingOptions { heading_style: HeadingStyle::Setext, ..FormattingOptions::default() };
    assert_eq!(written("* Title", options), "Title\n=====");
    assert_eq!(written("** Ab", options), "Ab\n--");
    assert_eq!(written("* héé", options), "héé\n===");
    let heading =
        CSTNode::Heading { level: 3, content: vec![text("a"), text("bc")], markers: span(), span: span() };
    assert_eq!(MarkdownFormatter::new(options).format(&heading), Ok("a bc\n----".to_string()));
}

#[test]
fn emphasis_is_written_in_the_chosen_style() {
    let options = FormattingOptions {
        emphasis_style: EmphasisStyle::Underscore,
        ..FormattingOptions::default()
    };
    assert_eq!(written("**b** and *i*", options), "__b__ and _i_");
    assert_eq!(written("__b__ and _i_", FormattingOptions::default()), "**b** and *i*");
}

#[test]
fn a_line_break_is_a_line_feed() {
    assert_eq!(written("*a\nb*", FormattingOptions::default()), "*a\nb*");
}

#[test]
fn an_error_node_cannot_be_written() {
    let (cst, _) = Parser::new("ok\n******* deep").parse().unwrap();
    let mut formatter = MarkdownFormatter::new(FormattingOptions::default());
    let error = formatter.format(&cst).unwrap_err();
    assert_eq!(
        error,
        MarkdownError::FormattingError("no rendering rule for an error node".to_string())
    );
    assert_eq!(error.message(), "Formatting error: no rendering rule for an error node");
    let lone = CSTNode::Error { text: "x".to_string(), error: SyntaxError::new("bad") };
    assert!(formatter.format(&lone).is_err());
}

#[test]
fn every_format_starts_afresh() {
    let (cst, _) = Parser::new("* T").parse().unwrap();
    let mut formatter = MarkdownFormatter::new(FormattingOptions::default());
    assert_eq!(formatter.format(&cst), Ok("# T".to_string()));
    assert_eq!(formatter.format(&cst), Ok("# T".to_string()));
    assert_eq!(formatter.output, "# T");
}

#[test]
fn written_text_is_written_the_same_again() {
    for input in [
        "* Title\n\n\ntext *a* and **b**",
        "plain\nlines\n",
        "a*b",
        "** x\n/y/ _z_",
        "**b**",
        "* H\n",
        "****** six\n\n*a **b** c*",
    ] {
        let once = written(input, FormattingOptions::default());
        let twice = written(&once, FormattingOptions::default());
        assert_eq!(once, twice);
    }
}

#[test]
fn visits_write_nodes_of_their_kind_only() {
    let (cst, _) = Parser::new("* T").parse().unwrap();
    let heading = &cst.children().unwrap()[0];
    let mut formatter = MarkdownFormatter::new(FormattingOptions::default());
    assert_eq!(formatter.visit_paragraph(heading), Ok(()));
    assert_eq!(formatter.visit_text(heading), Ok(()));
    assert_eq!(formatter.visit_bold(heading), Ok(()));
    assert_eq!(formatter.visit_italic(heading), Ok(()));
    assert_eq!(formatter.visit_line_break(heading), Ok(()));
    assert_eq!(formatter.visit_document(heading), Ok(()));
    assert_eq!(formatter.output, "");
    assert_eq!(formatter.visit_heading(heading, 1), Ok(()));
    assert_eq!(formatter.output, "# T");
    assert_eq!(formatter.visit_document(&cst), Ok(()));
    assert_eq!(formatter.output, "# T# T");
    assert_eq!(formatter.visit_text(&text("!")), Ok(()));
    assert_eq!(formatter.output, "# T# T!");
    let lone = CSTNode::Error { text: "x".to_string(), error: SyntaxError::new("bad") };
    assert_eq!(formatter.visit_text(&lone), Ok(()));
    let broken = CSTNode::Paragraph { content: vec![lone], span: span() };
    assert!(formatter.visit_paragraph(&broken).is_err());
}

#[test]
fn an_abstract_tree_as_text_shows_its_headings() {
    let (_, ast) = Parser::new("** T\nx\n* U").parse().unwrap();
    assert_eq!(ast.to_text(), "## \n\n\n\n\n# \n");
    let options = FormattingOptions { preserve_empty_lines: false, ..FormattingOptions::default() };
    let mut text = "> ".to_string();
    ast.fmt_with_options(&mut text, &options);
    assert_eq!(text, "> ## \n\n\n# \n");
    let heading = ASTNode::Heading {
        level: 3,
        content: vec![ASTNode::Text("a".to_string()), ASTNode::LineBreak],
    };
    assert_eq!(heading.to_text(), "###  \n");
    assert_eq!(ASTNode::Text("a".to_string()).to_text(), "");
}

#[test]
fn not_every_text_is_written_the_same_again() {
    let once = written("* \n", FormattingOptions::default());
    assert_eq!(once, "# \n");
    assert_eq!(written(&once, FormattingOptions::default()), "# ");
    let once = written("**a*", FormattingOptions::default());
    assert_eq!(once, "**a****");
    assert_eq!(written(&once, FormattingOptions::default()), "**a******");
}
