use scanner::parse_error::ParseError;
use scanner::string_eater::StringEater;

fn scanner_on(text: &str) -> StringEater {
    StringEater::new(&text.to_string())
}

#[test]
fn read_word_stops_at_the_space() {
    let mut eater = scanner_on("foo123 bar");
    assert_eq!(eater.read_word().unwrap(), "foo123");
    assert_eq!(eater.backup(), 6);
    assert!(matches!(eater.peek(), Ok(' ')));
}

#[test]
fn read_word_does_not_begin_with_a_digit() {
    let mut eater = scanner_on("123abc");
    assert_eq!(eater.read_word().unwrap(), "");
    assert_eq!(eater.backup(), 0);
    assert!(matches!(eater.peek(), Ok('1')));
}

#[test]
fn read_word_takes_underscores_and_both_cases() {
    let mut eater = scanner_on("_Ab_9z-rest");
    assert_eq!(eater.read_word().unwrap(), "_Ab_9z");
    assert!(matches!(eater.peek(), Ok('-')));
}

#[test]
fn read_word_runs_to_the_end_of_the_source() {
    let mut eater = scanner_on("x = abc");
    assert_eq!(eater.read_word().unwrap(), "x");
    assert_eq!(eater.trim(), true);
    assert_eq!(eater.eat('='), true);
    assert_eq!(eater.trim(), true);
    assert_eq!(eater.read_word().unwrap(), "abc");
    assert_eq!(eater.backup(), 7);
    assert!(matches!(eater.next(), Err(ParseError::UnexpectedEOF)));
}

#[test]
fn read_word_at_the_end_is_empty() {
    let mut eater = scanner_on("");
    assert_eq!(eater.read_word().unwrap(), "");
    assert_eq!(eater.backup(), 0);
}

#[test]
fn read_word_stops_at_a_letter_outside_ascii() {
    let mut eater = scanner_on("caf\u{e9}");
    assert_eq!(eater.read_word().unwrap(), "caf");
    assert!(matches!(eater.peek(), Ok('\u{e9}')));
}

#[test]
fn read_integer_reads_leading_zeros() {
    let mut eater = scanner_on("042x");
    assert_eq!(eater.read_integer().unwrap(), 42);
    assert_eq!(eater.backup(), 3);
    assert!(matches!(eater.peek(), Ok('x')));
}

#[test]
fn read_integer_runs_to_the_end_of_the_source() {
    let mut eater = scanner_on("1234567890");
    assert_eq!(eater.read_integer().unwrap(), 1234567890);
    assert_eq!(eater.backup(), 10);
}

#[test]
fn read_integer_stops_at_a_hexadecimal_letter() {
    let mut eater = scanner_on("12ab");
    assert_eq!(eater.read_integer().unwrap(), 12);
    assert!(matches!(eater.peek(), Ok('a')));
}

#[test]
fn read_integer_reads_the_largest_number() {
    let mut eater = scanner_on("18446744073709551615");
    assert_eq!(eater.read_integer().unwrap(), u64::MAX);
    assert_eq!(eater.backup(), 20);
}

#[test]
fn read_integer_too_large_gives_the_largest_number() {
    let mut eater = scanner_on("18446744073709551616;");
    assert_eq!(eater.read_integer().unwrap(), u64::MAX);
    assert_eq!(eater.backup(), 20);
    assert!(matches!(eater.peek(), Ok(';')));

    let mut eater = scanner_on("99999999999999999999999999 ");
    assert_eq!(eater.read_integer().unwrap(), u64::MAX);
    assert!(matches!(eater.peek(), Ok(' ')));
}

#[test]
fn read_integer_hex_stops_at_an_upper_case_letter() {
    let mut eater = scanner_on("1aF");
    assert_eq!(eater.read_integer_hex().unwrap(), 26);
    assert_eq!(eater.backup(), 2);
    assert!(matches!(eater.peek(), Ok('F')));
}

#[test]
fn read_integer_hex_reads_every_digit() {
    let mut eater = scanner_on("0123456789abcdefg");
    assert_eq!(eater.read_integer_hex().unwrap(), 0x0123456789abcdef);
    assert!(matches!(eater.peek(), Ok('g')));
}

#[test]
fn read_integer_hex_reads_the_largest_number() {
    let mut eater = scanner_on("ffffffffffffffff");
    assert_eq!(eater.read_integer_hex().unwrap(), u64::MAX);
}

#[test]
fn read_integer_hex_too_large_gives_the_largest_number() {
    let mut eater = scanner_on("10000000000000000,");
    assert_eq!(eater.read_integer_hex().unwrap(), u64::MAX);
    assert_eq!(eater.backup(), 17);
    assert!(matches!(eater.peek(), Ok(',')));
}

#[test]
fn read_integer_bin_stops_at_another_digit() {
    let mut eater = scanner_on("1012");
    assert_eq!(eater.read_integer_bin().unwrap(), 5);
    assert_eq!(eater.backup(), 3);
    assert!(matches!(eater.peek(), Ok('2')));
}

#[test]
fn read_integer_bin_reads_the_largest_number() {
    let digits = "1".repeat(64);
    let mut eater = scanner_on(&digits);
    assert_eq!(eater.read_integer_bin().unwrap(), u64::MAX);
    assert_eq!(eater.backup(), 64);
}

#[test]
fn read_integer_bin_too_large_gives_the_largest_number() {
    let digits = format!("1{}", "0".repeat(64));
    let mut eater = scanner_on(&digits);
    assert_eq!(eater.read_integer_bin().unwrap(), u64::MAX);
    assert_eq!(eater.backup(), 65);
}

#[test]
fn a_number_after_a_guard_is_read() {
    let mut eater = scanner_on("x7");
    assert!(matches!(eater.next_is_integer(), Ok(false)));
    assert!(matches!(eater.next(), Ok('x')));
    assert!(matches!(eater.next_is_integer(), Ok(true)));
    assert_eq!(eater.read_integer().unwrap(), 7);
}
