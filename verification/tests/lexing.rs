use neorg::kind::{TaskStatus, Token};
use neorg::lexer::{Lex, Lexer, NeorgChar};
use neorg::span::{Span, Spanned};

fn text(content: &str) -> Token {
    Token::Text(content.to_string())
}

#[test]
fn a_heading_line() {
    assert_eq!(
        Lexer::lex("* heading\n"),
        vec![Token::Heading { level: 1 }, text("heading"), Token::Newline]
    );
    assert_eq!(Lexer::lex("***x"), vec![Token::Heading { level: 3 }, text("x")]);
}

#[test]
fn runs_of_dashes_and_tildes() {
    assert_eq!(
        Lexer::lex("--- -- - ----- ~~ ~"),
        vec![
            Token::ReverseHeading { levels: 1 },
            Token::UnorderedList { level: 2 },
            Token::UnorderedList { level: 1 },
            Token::ReverseHeading { levels: 1 },
            Token::OrderedList { level: 2 },
            Token::OrderedList { level: 1 },
        ]
    );
}

#[test]
fn code_blocks() {
    assert_eq!(
        Lexer::lex("@code rust\nlet\n@end"),
        vec![
            Token::CodeBlockStart { language: Some("rust".to_string()) },
            Token::Newline,
            text("let"),
            Token::Newline,
            Token::CodeBlockEnd,
        ]
    );
    assert_eq!(
        Lexer::lex("@code\n"),
        vec![Token::CodeBlockStart { language: None }, Token::Newline]
    );
    assert_eq!(Lexer::lex("@code"), vec![Token::CodeBlockStart { language: None }]);
    assert_eq!(Lexer::lex("@code   \t py"), vec![Token::CodeBlockStart {
        language: Some("py".to_string())
    }]);
}

#[test]
fn an_unknown_directive_is_text() {
    assert_eq!(Lexer::lex("@table x"), vec![text("@table"), text("x")]);
    assert_eq!(Lexer::lex("@"), vec![text("@")]);
}

#[test]
fn task_markers_wrap_a_status() {
    let statuses = [
        (" ", TaskStatus::Undone),
        ("x", TaskStatus::Done),
        ("?", TaskStatus::NeedsInput),
        ("!", TaskStatus::Urgent),
        ("+", TaskStatus::Recurring),
        ("-", TaskStatus::Pending),
        ("=", TaskStatus::OnHold),
        ("_", TaskStatus::Cancelled),
    ];
    for (symbol, status) in statuses {
        let input = format!("|({symbol})| task");
        assert_eq!(
            Lexer::lex(&input),
            vec![
                Token::TaskMarkerStart,
                Token::TaskStatus(status),
                Token::TaskMarkerEnd,
                text("task"),
            ]
        );
        assert_eq!(symbol.parse::<TaskStatus>(), Ok(status));
        assert_eq!(TaskStatus::parse(symbol), Some(status));
    }
    assert_eq!("xx".parse::<TaskStatus>(), Err(()));
    assert_eq!("".parse::<TaskStatus>(), Err(()));
    assert_eq!(TaskStatus::from_symbol('y'), None);
}

#[test]
fn no_status_behind_the_marker_reads_on() {
    assert_eq!(Lexer::lex("|(q)|"), vec![Token::TaskMarkerStart, text("q)"), Token::Pipe]);
    assert_eq!(Lexer::lex("a | b"), vec![text("a"), Token::Pipe, text("b")]);
    assert_eq!(Lexer::lex("x)|"), vec![text("x)"), Token::Pipe]);
    assert_eq!(Lexer::lex("x )|"), vec![text("x"), Token::TaskMarkerEnd]);
}

#[test]
fn markup_and_links() {
    assert_eq!(
        Lexer::lex("/i/ _u_ !s! `v` %c%"),
        vec![
            Token::Italic,
            text("i"),
            Token::Italic,
            Token::Underline,
            text("u"),
            Token::Underline,
            Token::Spoiler,
            text("s"),
            Token::Spoiler,
            Token::Verbatim,
            text("v"),
            Token::Verbatim,
            Token::Comment,
            text("c"),
            Token::Comment,
        ]
    );
    assert_eq!(
        Lexer::lex("{a}[b]"),
        vec![
            Token::LinkStart,
            text("a"),
            Token::LinkEnd,
            Token::LinkDescStart,
            text("b"),
            Token::LinkDescEnd,
        ]
    );
    assert_eq!(Lexer::lex("/|x"), vec![Token::Italic, text("x")]);
}

#[test]
fn clusters_stay_whole() {
    assert_eq!(Lexer::lex("e\u{301}x 👨‍👩‍👧"), vec![text("e\u{301}x"), text("👨‍👩‍👧")]);
    assert_eq!(Lexer::lex("a*"), vec![text("a"), Token::Heading { level: 1 }]);
}

#[test]
fn white_space_within_a_line_is_dropped() {
    assert_eq!(Lexer::lex("  a \t b\u{a0}c  "), vec![text("a"), text("b"), text("c")]);
    assert_eq!(Lexer::lex("a\n\nb"), vec![text("a"), Token::Newline, Token::Newline, text("b")]);
    assert_eq!(Lexer::lex(""), Vec::<Token>::new());
    assert_eq!(Lexer::lex("   "), Vec::<Token>::new());
}

#[test]
fn clusters_given_by_hand() {
    assert_eq!(
        Lexer::lex_clusters("** a", vec!["*", "*", " ", "a"]),
        vec![Token::Heading { level: 2 }, text("a")]
    );
    assert_eq!(Lexer::lex_clusters("", vec!["x", "", "y"]), vec![text("x")]);
}

#[test]
fn reading_token_by_token() {
    let mut lexer = Lexer::new("* a");
    assert_eq!(lexer.next_token(), Token::Heading { level: 1 });
    assert_eq!(lexer.next_token(), text("a"));
    assert_eq!(lexer.next_token(), Token::Eof);
    assert_eq!(lexer.next_token(), Token::Eof);
    let mut rest = Lexer::new("a b c");
    assert_eq!(rest.next_token(), text("a"));
    assert_eq!(rest.rest(), vec![text("b"), text("c")]);
}

#[test]
fn reading_cluster_by_cluster() {
    let mut lexer = Lexer::new("ab  cd\nx");
    assert_eq!(lexer.peek_char(), Some('a'));
    assert!(!lexer.is_eof());
    assert!(!lexer.is_at_line_end());
    lexer.advance();
    assert_eq!(lexer.peek_char(), Some('b'));
    assert_eq!(lexer.read_until_whitespace(), "b");
    lexer.skip_whitespace();
    assert_eq!(lexer.read_until_whitespace(), "cd");
    assert!(lexer.is_at_line_end());
    lexer.skip_whitespace();
    assert_eq!(lexer.peek_char(), Some('\n'));
    lexer.advance();
    lexer.advance();
    assert!(lexer.is_eof());
    assert!(lexer.is_at_line_end());
    assert_eq!(lexer.peek_char(), None);
    lexer.advance();
    assert!(lexer.is_eof());
}

#[test]
fn what_is_asked_of_a_character() {
    assert!('\n'.is_newline());
    assert!(!' '.is_newline());
    for c in "*-~@|/_!`%{}[]".chars() {
        assert!(c.is_special_char());
    }
    for c in "a()#\n ".chars() {
        assert!(!c.is_special_char());
    }
}

fn spanned(token: Token, start: usize, end: usize, line: usize, column: usize) -> Spanned<Token> {
    Spanned::new(token, Span::new(start, end, line, column))
}

#[test]
fn tokens_with_the_spans_they_cover() {
    assert_eq!(
        Lexer::lex_spanned("* hé\n|(x)|  a"),
        vec![
            spanned(Token::Heading { level: 1 }, 0, 1, 1, 1),
            spanned(text("hé"), 2, 4, 1, 3),
            spanned(Token::Newline, 4, 5, 1, 5),
            spanned(Token::TaskMarkerStart, 5, 7, 2, 1),
            spanned(Token::TaskStatus(TaskStatus::Done), 7, 8, 2, 3),
            spanned(Token::TaskMarkerEnd, 8, 10, 2, 4),
            spanned(text("a"), 12, 13, 2, 8),
        ]
    );
    assert_eq!(Lexer::lex_spanned(" \t "), Vec::<Spanned<Token>>::new());
}

#[test]
fn spans_count_the_characters_of_whole_clusters() {
    assert_eq!(
        Lexer::lex_spanned("e\u{301}\r\nb"),
        vec![
            spanned(text("e\u{301}"), 0, 2, 1, 1),
            spanned(Token::Newline, 2, 4, 1, 3),
            spanned(text("b"), 4, 5, 2, 1),
        ]
    );
    assert_eq!(
        Lexer::lex_spanned("|( )|"),
        vec![
            spanned(Token::TaskMarkerStart, 0, 2, 1, 1),
            spanned(Token::TaskStatus(TaskStatus::Undone), 2, 3, 1, 3),
            spanned(Token::TaskMarkerEnd, 3, 5, 1, 4),
        ]
    );
    assert_eq!(
        Lexer::lex_spanned("|(\tx"),
        vec![spanned(Token::TaskMarkerStart, 0, 2, 1, 1), spanned(text("x"), 3, 4, 1, 4)]
    );
}

#[test]
fn the_next_token_with_its_span() {
    let mut lexer = Lexer::new("ab  -");
    assert_eq!(lexer.next_spanned(), spanned(text("ab"), 0, 2, 1, 1));
    assert_eq!(lexer.next_spanned(), spanned(Token::UnorderedList { level: 1 }, 4, 5, 1, 5));
    assert_eq!(lexer.next_spanned(), spanned(Token::Eof, 5, 5, 1, 6));
    let mut rest = Lexer::new("a b");
    assert_eq!(rest.next_token(), text("a"));
    assert_eq!(rest.rest_spanned(), vec![spanned(text("b"), 2, 3, 1, 3)]);
}

#[test]
fn a_line_feed_behind_a_carriage_return_is_a_line_feed() {
    assert_eq!(Lexer::lex("a\r\nb\n"), vec![text("a"), Token::Newline, text("b"), Token::Newline]);
    assert_eq!(Lexer::lex("a\rb"), vec![text("a"), text("b")]);
    let mut lexer = Lexer::new("\r\n");
    assert_eq!(lexer.peek_char(), Some('\n'));
    assert!(lexer.is_at_line_end());
}
