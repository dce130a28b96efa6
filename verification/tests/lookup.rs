use ecow::EcoString;
use neorg::document::{TextEdit, Word};
use neorg::error::MarkdownError;
use neorg::span::{Position, Range};
use neorg::strings::{char_is_blank, char_is_whitespace, decimal, push_decimal, push_repeated};
use neorg::types::{
    compose_hover, gather_new, meaning_of, rewrite_actions, synonyms_of, CodeAction, Definition,
    DictionaryEntry, MarkDown, Meaning, Neorg, PlainText,
};

fn greeting() -> Definition {
    Definition {
        definition: "A greeting".to_string(),
        example: Some("hello there".to_string()),
        synonyms: vec!["hey".to_string(), "greetings".to_string()],
        antonyms: vec![],
    }
}

fn second() -> Definition {
    Definition {
        definition: "Second".to_string(),
        example: None,
        synonyms: vec!["hi".to_string(), "howdy".to_string()],
        antonyms: vec!["bye".to_string()],
    }
}

fn noun() -> Meaning {
    Meaning {
        part_of_speech: "noun".to_string(),
        definitions: vec![greeting(), second()],
        synonyms: vec!["hi".to_string(), "hey".to_string(), "hi".to_string()],
    }
}

fn hello() -> DictionaryEntry {
    DictionaryEntry {
        word: "hello".to_string(),
        phonetic: Some("həˈləʊ".to_string()),
        phonetics: vec![],
        origin: Some("early 19th century".to_string()),
        meanings: vec![noun()],
    }
}

const NOUN_IN_MARKDOWN: &str =
    "## noun\n\n1. A greeting\n \n> ### Example: \n>     - hello there\n\n2. Second\n \n";

#[test]
fn a_definition_written_out() {
    assert_eq!(
        MarkDown::from_definition(&greeting()).0,
        "A greeting\n \n> ### Example: \n>     - hello there\n\n"
    );
    assert_eq!(MarkDown::from_definition(&second()).0, "Second\n \n");
    assert_eq!(
        Neorg::from_definition(&greeting()).0,
        "A greeting\n \n> *** Example: \n>     - hello there\n\n"
    );
}

#[test]
fn a_meaning_written_out() {
    assert_eq!(MarkDown::from_meaning(&noun()).0, NOUN_IN_MARKDOWN);
    assert_eq!(
        Neorg::from_meaning(&noun()).0,
        "** noun\n\n1. A greeting\n \n> ### Example: \n>     - hello there\n\n2. Second\n \n"
    );
}

#[test]
fn definitions_are_numbered_in_decimal() {
    let meaning = Meaning {
        part_of_speech: "verb".to_string(),
        definitions: (0..11)
            .map(|i| Definition {
                definition: format!("d{i}"),
                example: None,
                synonyms: vec![],
                antonyms: vec![],
            })
            .collect(),
        synonyms: vec![],
    };
    let written = MarkDown::from_meaning(&meaning).0;
    assert!(written.starts_with("## verb\n\n1. d0\n \n2. d1\n \n"));
    assert!(written.ends_with("10. d9\n \n11. d10\n \n"));
}

#[test]
fn an_entry_written_out() {
    assert_eq!(
        MarkDown::from_entry(&hello()).0,
        format!("# hello\thəˈləʊ\n\n## Origin\n\tearly 19th century\n{NOUN_IN_MARKDOWN}")
    );
    assert_eq!(
        Neorg::from_entry(&hello()).0,
        format!("* hello\thəˈləʊ\n\n** Origin\n\tearly 19th century\n{NOUN_IN_MARKDOWN}")
    );
    let bare = DictionaryEntry {
        word: "w".to_string(),
        phonetic: None,
        phonetics: vec![],
        origin: None,
        meanings: vec![],
    };
    assert_eq!(MarkDown::from_entry(&bare).0, "# w\n\n");
    assert_eq!(Neorg::from_entry(&bare).0, "* w\n\n");
}

#[test]
fn the_first_entry_is_the_meaning_shown() {
    assert_eq!(meaning_of(&vec![]), "");
    let mut other = hello();
    other.word = "other".to_string();
    assert_eq!(meaning_of(&vec![hello(), other]), MarkDown::from_entry(&hello()).0);
}

#[test]
fn a_hover_is_what_was_found_for_each_word() {
    assert_eq!(compose_hover(&vec![]), "");
    assert_eq!(compose_hover(&vec!["# a\n".to_string(), "# b\n".to_string()]), "# a\n# b\n");
}

#[test]
fn synonyms_are_gathered_once_each_in_their_order() {
    assert_eq!(synonyms_of(&vec![]), Vec::<String>::new());
    assert_eq!(
        synonyms_of(&vec![hello(), hello()]),
        vec!["hi".to_string(), "hey".to_string(), "greetings".to_string(), "howdy".to_string()]
    );
    let mut gathered = vec!["b".to_string()];
    gather_new(&mut gathered, &vec!["a".to_string(), "b".to_string(), "a".to_string()]);
    assert_eq!(gathered, vec!["b".to_string(), "a".to_string()]);
}

#[test]
fn one_offer_for_each_other_word() {
    let range = Range::new(Position::new(0, 2), Position::new(0, 7));
    let word = Word { text: "hello".to_string(), range };
    assert_eq!(rewrite_actions(&word, &vec![]), Vec::<CodeAction>::new());
    assert_eq!(
        rewrite_actions(&word, &vec!["hi".to_string(), "hey".to_string()]),
        vec![
            CodeAction {
                title: "Rewrite `hello` as `hi`.".to_string(),
                edit: TextEdit { range, new_text: "hi".to_string() },
            },
            CodeAction {
                title: "Rewrite `hello` as `hey`.".to_string(),
                edit: TextEdit { range, new_text: "hey".to_string() },
            },
        ]
    );
}

#[test]
fn plain_text_grows_at_its_end() {
    let mut text = PlainText::new(EcoString::from("ab"));
    assert_eq!(text.ctx(), "ab");
    text.push('é');
    text.push_str("de");
    assert_eq!(text.ctx(), "abéde");
    text.set_ctx(EcoString::from("new"));
    assert_eq!(text.ctx(), "new");
    text.push_str("");
    assert_eq!(text.ctx(), "new");
}

#[test]
fn numbers_in_decimal() {
    assert_eq!(decimal(0), "0");
    assert_eq!(decimal(7), "7");
    assert_eq!(decimal(10), "10");
    assert_eq!(decimal(12345), "12345");
    assert_eq!(decimal(9876543210), "9876543210");
    assert_eq!(decimal(usize::MAX), usize::MAX.to_string());
    let mut text = "n=".to_string();
    push_decimal(&mut text, 405);
    push_repeated(&mut text, '!', 3);
    push_repeated(&mut text, '?', 0);
    assert_eq!(text, "n=405!!!");
}

#[test]
fn white_space_is_what_the_standard_library_takes_for_it() {
    for c in '\0'..=char::MAX {
        assert_eq!(char_is_whitespace(c), c.is_whitespace(), "{:?}", c);
    }
}

#[test]
fn blanks_are_white_space_within_a_line() {
    assert!(char_is_blank(' '));
    assert!(char_is_blank('\t'));
    assert!(char_is_blank('\u{a0}'));
    assert!(!char_is_blank('\n'));
    assert!(!char_is_blank('a'));
    assert!(!char_is_blank('\0'));
}

#[test]
fn errors_describe_themselves() {
    assert_eq!(
        MarkdownError::ParseError { pos: 12, message: "bad".to_string() }.message(),
        "Parsing error at position 12: bad"
    );
    assert_eq!(MarkdownError::InvalidNesting.message(), "Invalid nesting of blocks");
    assert_eq!(MarkdownError::UnexpectedEOF.message(), "Unexpected end of input");
    assert_eq!(
        MarkdownError::ValidationError("a: b".to_string()).message(),
        "Validation error: a: b"
    );
    assert_eq!(
        MarkdownError::FormattingError("none".to_string()).message(),
        "Formatting error: none"
    );
}
