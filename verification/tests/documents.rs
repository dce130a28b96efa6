use neorg::document::{
    apply_change, token_legend, Diagnostic, DocumentState, SemanticToken, TextChange, TextEdit,
    Word,
};
use neorg::error::MarkdownError;
use neorg::format::FormattingOptions;
use neorg::node::{ASTNode, CSTNode};
use neorg::span::{Position, Range};
use neorg::store::DocumentStore;
use neorg::validate::{MarkdownValidator, ValidationRule};
use ropey::Rope;

fn range(start: (u32, u32), end: (u32, u32)) -> Range {
    Range::new(Position::new(start.0, start.1), Position::new(end.0, end.1))
}

fn change(start: (u32, u32), end: (u32, u32), text: &str) -> TextChange {
    TextChange { range: Some(range(start, end)), text: text.to_string() }
}

fn whole(text: &str) -> TextChange {
    TextChange { range: None, text: text.to_string() }
}

#[test]
fn opening_parses_the_text() {
    let state = DocumentState::open("* Title\nBody /em/.");
    assert_eq!(state.text(), "* Title\nBody /em/.");
    assert_eq!(state.revision(), 0);
    assert_eq!(
        state.cst().to_ast(),
        ASTNode::Document(vec![
            ASTNode::Heading { level: 1, content: vec![ASTNode::Text("Title".to_string())] },
            ASTNode::Paragraph(vec![
                ASTNode::Text("Body ".to_string()),
                ASTNode::Italic(vec![ASTNode::Text("em".to_string())]),
                ASTNode::Text(".".to_string()),
            ]),
        ])
    );
    assert_eq!(state.diagnostics(), Vec::<Diagnostic>::new());
}

#[test]
fn one_change_replaces_its_range() {
    let mut buffer = Rope::from_str("hello world");
    assert!(apply_change(&mut buffer, &change((0, 0), (0, 5), "bye")));
    assert_eq!(buffer.to_string(), "bye world");
    assert!(apply_change(&mut buffer, &change((0, 3), (0, 3), ",")));
    assert_eq!(buffer.to_string(), "bye, world");
    assert!(apply_change(&mut buffer, &change((0, 4), (0, 10), "")));
    assert_eq!(buffer.to_string(), "bye,");
    assert!(apply_change(&mut buffer, &whole("new\ntext")));
    assert_eq!(buffer.to_string(), "new\ntext");
    assert!(apply_change(&mut buffer, &change((1, 0), (1, 4), "lines")));
    assert_eq!(buffer.to_string(), "new\nlines");
}

#[test]
fn a_change_outside_the_text_changes_nothing() {
    let mut buffer = Rope::from_str("ab\ncd");
    assert!(!apply_change(&mut buffer, &change((5, 0), (5, 1), "x")));
    assert!(!apply_change(&mut buffer, &change((0, 0), (0, 9), "x")));
    assert!(!apply_change(&mut buffer, &change((1, 1), (0, 1), "x")));
    assert_eq!(buffer.to_string(), "ab\ncd");
}

#[test]
fn changes_are_read_against_the_text_the_earlier_ones_left() {
    let first = change((0, 0), (0, 5), "bye");
    let second = change((0, 3), (0, 4), "_");
    let opened = DocumentState::open("hello world");

    let at_once = opened.apply_changes(&vec![first.clone(), second.clone()]);
    let in_turn = opened.apply_changes(&vec![first]).apply_changes(&vec![second]);

    assert_eq!(at_once.text(), "bye_world");
    assert_eq!(in_turn.text(), "bye_world");
    assert_eq!(at_once.cst(), in_turn.cst());
}

#[test]
fn a_change_of_lines_moves_later_ranges() {
    let opened = DocumentState::open("one\ntwo");
    let state = opened.apply_changes(&vec![
        change((0, 3), (1, 0), " "),
        change((0, 4), (0, 7), "2"),
    ]);
    assert_eq!(state.text(), "one 2");
    assert_eq!(opened.text(), "one\ntwo");
}

#[test]
fn every_change_gives_a_new_revision_and_a_new_tree() {
    let opened = DocumentState::open("a");
    let changed = opened.apply_changes(&vec![whole("* H")]);
    assert_eq!(changed.revision(), 1);
    assert!(changed.is_current(1));
    assert!(!changed.is_current(0));
    assert!(opened.is_current(0));
    assert_eq!(
        changed.cst().to_ast(),
        ASTNode::Document(vec![ASTNode::Heading {
            level: 1,
            content: vec![ASTNode::Text("H".to_string())],
        }])
    );
    let untouched = changed.apply_changes(&vec![change((9, 0), (9, 0), "x")]);
    assert_eq!(untouched.text(), "* H");
    assert_eq!(untouched.revision(), 2);
    let replaced = untouched.replace_text("b");
    assert_eq!(replaced.text(), "b");
    assert_eq!(replaced.revision(), 3);
}

#[test]
fn places_and_offsets_of_a_document() {
    let state = DocumentState::open("ab\ncd");
    assert_eq!(state.position_at(4), Some(Position::new(1, 1)));
    assert_eq!(state.position_at(6), None);
    assert_eq!(state.offset_at(Position::new(1, 2)), Some(5));
    assert_eq!(state.offset_at(Position::new(1, 3)), None);
    assert_eq!(state.whole_range(), range((0, 0), (1, 2)));
    assert_eq!(DocumentState::open("x\n").whole_range(), range((0, 0), (1, 0)));
}

#[test]
fn error_nodes_become_diagnostics() {
    let state = DocumentState::open("ok\n******* deep\n******** deeper");
    assert_eq!(
        state.diagnostics(),
        vec![
            Diagnostic {
                range: range((1, 6), (1, 7)),
                message: "heading nested deeper than six levels".to_string(),
            },
            Diagnostic {
                range: range((2, 6), (2, 8)),
                message: "heading nested deeper than six levels".to_string(),
            },
        ]
    );
}

#[test]
fn broken_rules_become_diagnostics_about_the_whole_text() {
    let state = DocumentState::open("******* x\n* T\nyz");
    let mut validator = MarkdownValidator::new();
    validator.add_rule(ValidationRule::new(
        "no_headings",
        |node| !matches!(node, CSTNode::Heading { .. }),
        "headings are not allowed",
    ));
    assert_eq!(
        state.diagnostics_with(&mut validator),
        vec![
            Diagnostic {
                range: range((0, 6), (0, 7)),
                message: "heading nested deeper than six levels".to_string(),
            },
            Diagnostic {
                range: range((0, 0), (2, 2)),
                message: "no_headings: headings are not allowed".to_string(),
            },
            Diagnostic {
                range: range((0, 0), (2, 2)),
                message: "no_headings: headings are not allowed".to_string(),
            },
        ]
    );
}

#[test]
fn the_words_at_a_place() {
    let state = DocumentState::open("* Title\nBody /em/.");
    assert_eq!(
        state.words_at(Position::new(1, 1)),
        vec![Word { text: "Body ".to_string(), range: range((1, 0), (1, 5)) }]
    );
    assert_eq!(
        state.words_at(Position::new(0, 7)),
        vec![Word { text: "Title".to_string(), range: range((0, 2), (0, 7)) }]
    );
    assert_eq!(state.words_at(Position::new(0, 0)), Vec::<Word>::new());
    assert_eq!(state.words_at(Position::new(7, 0)), Vec::<Word>::new());
}

#[test]
fn renaming_touches_the_word_alone() {
    let state = DocumentState::open("* Title\nBody /em/.");
    assert_eq!(
        state.rename(Position::new(0, 3), "Name"),
        Some(TextEdit { range: range((0, 2), (0, 7)), new_text: "Name".to_string() })
    );
    assert_eq!(
        state.rename(Position::new(1, 7), "it"),
        Some(TextEdit { range: range((1, 6), (1, 8)), new_text: "it".to_string() })
    );
    assert_eq!(state.rename(Position::new(0, 0), "Name"), None);
    assert_eq!(state.rename(Position::new(9, 9), "Name"), None);
}

#[test]
fn formatting_replaces_the_whole_text() {
    let state = DocumentState::open("* T\n\n\nx *y*");
    assert_eq!(
        state.formatting(FormattingOptions::default()),
        Ok(TextEdit { range: range((0, 0), (3, 5)), new_text: "# T\n\nx *y*".to_string() })
    );
    let broken = DocumentState::open("******* x");
    assert_eq!(
        broken.formatting(FormattingOptions::default()),
        Err(MarkdownError::FormattingError("no rendering rule for an error node".to_string()))
    );
}

#[test]
fn the_store_opens_changes_saves_and_closes() {
    let mut store = DocumentStore::new();
    assert!(store.get("a.norg").is_none());
    assert!(!store.change("a.norg", &vec![whole("x")]));
    assert!(!store.save("a.norg", Some("x")));
    assert!(!store.close("a.norg"));

    store.open("a.norg", "one");
    store.open("b.norg", "two");
    assert_eq!(store.get("a.norg").unwrap().text(), "one");
    assert_eq!(store.get("b.norg").unwrap().text(), "two");

    let before = store.get("a.norg").unwrap();
    assert!(store.change("a.norg", &vec![change((0, 0), (0, 1), "O"), change((0, 3), (0, 3), "!")]));
    let after = store.get("a.norg").unwrap();
    assert_eq!(before.text(), "one");
    assert_eq!(before.revision(), 0);
    assert_eq!(after.text(), "One!");
    assert_eq!(after.revision(), 1);
    assert_eq!(store.get("b.norg").unwrap().text(), "two");

    assert!(store.save("a.norg", None));
    assert_eq!(store.get("a.norg").unwrap().revision(), 1);
    assert!(store.save("a.norg", Some("* saved")));
    assert_eq!(store.get("a.norg").unwrap().text(), "* saved");
    assert_eq!(store.get("a.norg").unwrap().revision(), 2);

    store.open("a.norg", "again");
    assert_eq!(store.get("a.norg").unwrap().revision(), 0);

    assert!(store.close("a.norg"));
    assert!(store.get("a.norg").is_none());
    assert!(!store.close("a.norg"));
    assert_eq!(store.get("b.norg").unwrap().text(), "two");
}

fn token(
    delta_line: u32,
    delta_start: u32,
    length: u32,
    token_type: u32,
) -> SemanticToken {
    SemanticToken { delta_line, delta_start, length, token_type, token_modifiers: 0 }
}

#[test]
fn the_coloured_pieces_of_a_document() {
    assert_eq!(token_legend(), vec!["heading", "bold", "italic", "text"]);
    let state = DocumentState::open("* Title

Body **b** /em/.");
    assert_eq!(
        state.semantic_tokens(),
        vec![
            token(0, 0, 2, 0),
            token(0, 2, 5, 3),
            token(2, 0, 5, 3),
            token(0, 5, 2, 1),
            token(0, 2, 1, 3),
            token(0, 3, 1, 3),
            token(0, 1, 1, 2),
            token(0, 1, 2, 3),
            token(0, 3, 1, 3),
        ]
    );
    assert_eq!(DocumentState::open("").semantic_tokens(), Vec::<SemanticToken>::new());
    assert_eq!(
        DocumentState::open("******* ").semantic_tokens(),
        vec![token(0, 0, 6, 0), token(0, 7, 1, 3)]
    );
}
