use scanner::parse_error::ParseError;
use scanner::string_eater::StringEater;

fn scanner_on(text: &str) -> StringEater {
    StringEater::new(&text.to_string())
}

#[test]
fn peek_leaves_the_character_unread() {
    let mut eater = scanner_on("ab");
    assert!(matches!(eater.peek(), Ok('a')));
    assert!(matches!(eater.peek(), Ok('a')));
    assert_eq!(eater.backup(), 0);
}

#[test]
fn next_reads_one_character_at_a_time() {
    let mut eater = scanner_on("ab");
    assert!(matches!(eater.next(), Ok('a')));
    assert_eq!(eater.backup(), 1);
    assert!(matches!(eater.next(), Ok('b')));
    assert_eq!(eater.backup(), 2);
}

#[test]
fn next_at_the_end_fails_and_stays() {
    let mut eater = scanner_on("a");
    assert!(matches!(eater.next(), Ok('a')));
    assert!(matches!(eater.next(), Err(ParseError::UnexpectedEOF)));
    assert!(matches!(eater.next(), Err(ParseError::UnexpectedEOF)));
    assert_eq!(eater.backup(), 1);
}

#[test]
fn peek_at_the_end_fails() {
    let mut eater = scanner_on("");
    assert!(matches!(eater.peek(), Err(ParseError::UnexpectedEOF)));
    assert_eq!(eater.backup(), 0);
}

#[test]
fn a_character_outside_ascii_is_one_character() {
    let mut eater = scanner_on("\u{e9}\u{4e16}x");
    assert!(matches!(eater.next(), Ok('\u{e9}')));
    assert!(matches!(eater.next(), Ok('\u{4e16}')));
    assert_eq!(eater.backup(), 2);
    assert!(matches!(eater.peek(), Ok('x')));
}

#[test]
fn eat_that_does_not_match_reads_nothing() {
    let mut eater = scanner_on("b");
    assert_eq!(eater.eat('a'), false);
    assert!(matches!(eater.peek(), Ok('b')));
    assert_eq!(eater.backup(), 0);
}

#[test]
fn eat_that_matches_reads_the_character() {
    let mut eater = scanner_on("ab");
    assert_eq!(eater.eat('a'), true);
    assert_eq!(eater.backup(), 1);
    assert!(matches!(eater.peek(), Ok('b')));
}

#[test]
fn eat_at_the_end_is_false() {
    let mut eater = scanner_on("");
    assert_eq!(eater.eat('a'), false);
    assert_eq!(eater.backup(), 0);
}

#[test]
fn trim_does_not_skip_a_tab() {
    let mut eater = scanner_on("\t  x");
    assert_eq!(eater.trim(), false);
    assert_eq!(eater.backup(), 0);
    assert!(matches!(eater.peek(), Ok('\t')));
}

#[test]
fn trim_skips_spaces_and_line_feeds() {
    let mut eater = scanner_on("  \n x");
    assert_eq!(eater.trim(), true);
    assert_eq!(eater.backup(), 4);
    assert!(matches!(eater.peek(), Ok('x')));
}

#[test]
fn trim_does_not_skip_a_carriage_return() {
    let mut eater = scanner_on(" \r\n x");
    assert_eq!(eater.trim(), true);
    assert_eq!(eater.backup(), 1);
    assert!(matches!(eater.peek(), Ok('\r')));
}

#[test]
fn trim_runs_to_the_end_of_the_source() {
    let mut eater = scanner_on("a \n ");
    assert!(matches!(eater.next(), Ok('a')));
    assert_eq!(eater.trim(), true);
    assert_eq!(eater.backup(), 4);
    assert_eq!(eater.trim(), false);
    assert!(matches!(eater.next(), Err(ParseError::UnexpectedEOF)));
}

#[test]
fn next_is_word_looks_without_reading() {
    let mut eater = scanner_on("_a1");
    assert!(matches!(eater.next_is_word(), Ok(true)));
    assert_eq!(eater.backup(), 0);
    assert!(matches!(eater.next(), Ok('_')));
    assert!(matches!(eater.next_is_word(), Ok(true)));
    assert!(matches!(eater.next(), Ok('a')));
    assert!(matches!(eater.next_is_word(), Ok(false)));
    assert_eq!(eater.backup(), 2);
}

#[test]
fn next_is_integer_looks_without_reading() {
    let mut eater = scanner_on("7a");
    assert!(matches!(eater.next_is_integer(), Ok(true)));
    assert_eq!(eater.backup(), 0);
    assert!(matches!(eater.next(), Ok('7')));
    assert!(matches!(eater.next_is_integer(), Ok(false)));
    assert_eq!(eater.backup(), 1);
}

#[test]
fn lookahead_at_the_end_fails() {
    let mut eater = scanner_on("");
    assert!(matches!(eater.next_is_word(), Err(ParseError::UnexpectedEOF)));
    assert!(matches!(eater.next_is_integer(), Err(ParseError::UnexpectedEOF)));
}

#[test]
fn is_word_takes_letters_and_underscore() {
    for c in ['a', 'm', 'z', 'A', 'M', 'Z', '_'] {
        assert!(StringEater::is_word(c));
    }
    for c in ['`', '{', '@', '[', '0', '9', ' ', '-', '\n', '\u{e9}'] {
        assert!(!StringEater::is_word(c));
    }
}

#[test]
fn is_integer_takes_decimal_digits() {
    for c in ['0', '5', '9'] {
        assert!(StringEater::is_integer(c));
    }
    for c in ['/', ':', 'a', 'f', ' ', '\u{664}'] {
        assert!(!StringEater::is_integer(c));
    }
}
