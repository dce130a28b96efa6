use neorg::error::MarkdownError;
use neorg::node::CSTNode;
use neorg::parse::Parser;
use neorg::span::Span;
use neorg::validate::{
    HeadingContent, HeadingLevel, MarkdownValidator, NodePredicate, ValidationRule,
};

fn span() -> Span {
    Span::new(0, 0, 1, 1)
}

fn heading(level: u8, content: Vec<CSTNode>) -> CSTNode {
    CSTNode::Heading { level, content, markers: span(), span: span() }
}

fn text(content: &str) -> CSTNode {
    CSTNode::Text { content: content.to_string(), span: span() }
}

fn document(children: Vec<CSTNode>) -> CSTNode {
    CSTNode::Document { children, span: span() }
}

fn max_heading_length() -> ValidationRule {
    ValidationRule::new(
        "max_heading_length",
        |node| {
            if let CSTNode::Heading { content, .. } = node {
                content
                    .iter()
                    .map(|n| match n {
                        CSTNode::Text { content, .. } => content.len(),
                        _ => 0,
                    })
                    .sum::<usize>()
                    <= 50
            } else {
                true
            }
        },
        "Heading length should not exceed 50 characters",
    )
}

#[test]
fn test_custom_validation_rule() {
    let input = "* Very Long Heading That Should Fail Validation Because It Exceeds The Maximum Line Length Limit";
    let mut parser = Parser::new(input);
    let (cst, _) = parser.parse().unwrap();

    let mut validator = MarkdownValidator::new();
    validator.add_rule(ValidationRule::new(
        "max_heading_length",
        |node| {
            if let CSTNode::Heading { content, .. } = node {
                content
                    .iter()
                    .map(|n| match n {
                        CSTNode::Text { content, .. } => content.len(),
                        _ => 0,
                    })
                    .sum::<usize>()
                    <= 50
            } else {
                true
            }
        },
        "Heading length should not exceed 50 characters",
    ));

    assert!(validator.validate(&cst).is_err());
}

#[test]
fn a_long_heading_breaks_a_custom_rule() {
    let input = "* Very Long Heading That Should Fail Validation Because It Exceeds The Maximum Line Length Limit";
    let mut parser = Parser::new(input);
    let (cst, _) = parser.parse().unwrap();

    let mut validator = MarkdownValidator::new();
    validator.add_rule(max_heading_length());

    assert_eq!(
        validator.validate(&cst),
        Err(MarkdownError::ValidationError(
            "max_heading_length: Heading length should not exceed 50 characters".to_string()
        ))
    );
}

#[test]
fn a_short_heading_meets_a_custom_rule() {
    let (cst, _) = Parser::new("* Short").parse().unwrap();
    let mut validator = MarkdownValidator::new();
    validator.add_rule(max_heading_length());
    assert_eq!(validator.validate(&cst), Ok(()));
}

#[test]
fn default_rules_reject_an_empty_heading() {
    let tree = document(vec![heading(1, vec![])]);
    let mut validator = MarkdownValidator::new();
    assert_eq!(
        validator.validate(&tree),
        Err(MarkdownError::ValidationError("empty_heading: Headings must not be empty".to_string()))
    );
}

#[test]
fn default_rules_reject_a_level_beyond_six() {
    let tree = document(vec![heading(7, vec![text("deep")])]);
    let mut validator = MarkdownValidator::new();
    assert_eq!(
        validator.validate(&tree),
        Err(MarkdownError::ValidationError(
            "heading_level: Heading level must be between 1 and 6".to_string()
        ))
    );
}

#[test]
fn default_rules_accept_headings_with_content_from_level_one_to_six() {
    let tree = document(vec![
        heading(1, vec![text("a")]),
        heading(3, vec![text("b")]),
        heading(6, vec![text("c")]),
    ]);
    let mut validator = MarkdownValidator::new();
    assert_eq!(validator.validate(&tree), Ok(()));
    assert!(validator.messages().is_empty());
}

#[test]
fn default_rules_reject_a_heading_of_level_zero() {
    let s = Span::new(0, 1, 1, 1);
    let doc = CSTNode::Document {
        children: vec![CSTNode::Heading {
            level: 0,
            content: vec![CSTNode::Text { content: "a".into(), span: s }],
            markers: s,
            span: s,
        }],
        span: s,
    };
    let mut v = MarkdownValidator::new();
    assert_eq!(
        v.validate(&doc),
        Err(MarkdownError::ValidationError(
            "heading_level: Heading level must be between 1 and 6".to_string()
        ))
    );
}

#[test]
fn every_broken_rule_at_every_node_gives_a_line() {
    let tree = document(vec![heading(9, vec![]), heading(1, vec![heading(8, vec![text("x")])])]);
    let mut validator = MarkdownValidator::new();
    assert_eq!(
        validator.validate(&tree),
        Err(MarkdownError::ValidationError(
            "heading_level: Heading level must be between 1 and 6\n\
             empty_heading: Headings must not be empty\n\
             heading_level: Heading level must be between 1 and 6"
                .to_string()
        ))
    );
    assert_eq!(validator.messages().len(), 3);
}

#[test]
fn the_walk_does_not_look_inside_paragraphs() {
    let tree =
        document(vec![CSTNode::Paragraph { content: vec![heading(1, vec![])], span: span() }]);
    let mut validator = MarkdownValidator::new();
    assert_eq!(validator.validate(&tree), Ok(()));
}

#[test]
fn the_walk_looks_inside_bold_and_italic() {
    let tree = CSTNode::Bold {
        content: vec![CSTNode::Italic {
            content: vec![heading(1, vec![])],
            markers: span(),
            span: span(),
        }],
        markers: span(),
        span: span(),
    };
    let mut validator = MarkdownValidator::new();
    assert!(validator.validate(&tree).is_err());
}

#[test]
fn each_validation_starts_afresh() {
    let mut validator = MarkdownValidator::new();
    assert!(validator.validate(&heading(1, vec![])).is_err());
    assert_eq!(validator.validate(&heading(1, vec![text("x")])), Ok(()));
}

#[test]
fn a_rule_can_be_made_of_a_predicate() {
    let mut validator = MarkdownValidator::new();
    validator.add_rule(ValidationRule::from_predicate("level", HeadingLevel, "too deep"));
    assert_eq!(
        validator.validate(&document(vec![heading(7, vec![text("a")])])),
        Err(MarkdownError::ValidationError(
            "heading_level: Heading level must be between 1 and 6\nlevel: too deep".to_string()
        ))
    );
    assert_eq!(validator.validate(&document(vec![])), Ok(()));
}

#[test]
fn the_default_predicates_judge_single_nodes() {
    assert!(HeadingLevel.check(&heading(1, vec![])));
    assert!(HeadingLevel.check(&heading(6, vec![])));
    assert!(!HeadingLevel.check(&heading(7, vec![])));
    assert!(!HeadingLevel.check(&heading(0, vec![])));
    assert!(HeadingLevel.check(&text("x")));
    assert!(HeadingContent.check(&heading(1, vec![text("x")])));
    assert!(!HeadingContent.check(&heading(1, vec![])));
    assert!(HeadingContent.check(&text("")));
}

#[test]
fn the_default_validator_holds_the_default_rules() {
    let mut validator = MarkdownValidator::default();
    assert!(validator.validate(&heading(7, vec![])).is_err());
    assert_eq!(validator.messages().len(), 2);
}
