use neorg::scanner::{Scan, Scanner};

#[test]
fn a_new_scanner_stands_at_the_start() {
    let scanner = Scanner::new("héllo");
    assert_eq!(scanner.string(), "héllo");
    assert_eq!(scanner.cursor(), 0);
    assert!(!scanner.done());
    assert_eq!(scanner.before(), "");
    assert_eq!(scanner.after(), "héllo");
    assert_eq!(scanner.parts(), ("", "héllo"));
    assert_eq!(scanner.peek(), Some('h'));
}

#[test]
fn an_empty_string_is_done() {
    let mut scanner = Scanner::new("");
    assert!(scanner.done());
    assert_eq!(scanner.peek(), None);
    assert_eq!(scanner.eat(), None);
    assert_eq!(scanner.cursor(), 0);
    assert_eq!(scanner.eat_whitespace(), "");
}

#[test]
fn eating_moves_by_whole_characters() {
    let mut scanner = Scanner::new("héllo");
    assert_eq!(scanner.eat(), Some('h'));
    assert_eq!(scanner.cursor(), 1);
    assert_eq!(scanner.eat(), Some('é'));
    assert_eq!(scanner.cursor(), 3);
    assert_eq!(scanner.parts(), ("hé", "llo"));
    assert_eq!(scanner.peek(), Some('l'));
    assert_eq!(scanner.eat_while('l'), "ll");
    assert_eq!(scanner.cursor(), 5);
    assert_eq!(scanner.eat(), Some('o'));
    assert!(scanner.done());
    assert_eq!(scanner.eat(), None);
    assert_eq!(scanner.before(), "héllo");
    assert_eq!(scanner.after(), "");
}

#[test]
fn eating_by_pattern() {
    let mut scanner = Scanner::new("aab  \t日本c");
    assert!(!scanner.eat_if('b'));
    assert_eq!(scanner.cursor(), 0);
    assert!(scanner.eat_if('a'));
    assert_eq!(scanner.cursor(), 1);
    assert_eq!(scanner.eat_until(' '), "ab");
    assert_eq!(scanner.eat_until(' '), "");
    assert_eq!(scanner.eat_whitespace(), "  \t");
    assert_eq!(scanner.eat_while('x'), "");
    assert!(scanner.eat_if('日'));
    assert_eq!(scanner.eat_until('z'), "本c");
    assert!(scanner.done());
    assert!(!scanner.eat_if('c'));
}

#[test]
fn moving_back_by_whole_characters() {
    let mut scanner = Scanner::new("aé日");
    assert_eq!(scanner.uneat(), None);
    assert_eq!(scanner.cursor(), 0);
    assert_eq!(scanner.eat_until('x'), "aé日");
    assert_eq!(scanner.cursor(), 6);
    assert_eq!(scanner.uneat(), Some('日'));
    assert_eq!(scanner.cursor(), 3);
    assert_eq!(scanner.uneat(), Some('é'));
    assert_eq!(scanner.cursor(), 1);
    assert_eq!(scanner.peek(), Some('é'));
    assert_eq!(scanner.uneat(), Some('a'));
    assert_eq!(scanner.uneat(), None);
    assert_eq!(scanner.parts(), ("", "aé日"));
}

#[test]
fn a_copy_of_a_scanner_stands_where_it_stood() {
    let mut scanner = Scanner::new("ab");
    scanner.eat();
    let copy = scanner;
    scanner.eat();
    assert_eq!(copy.cursor(), 1);
    assert_eq!(copy.after(), "b");
    assert!(scanner.done());
}
