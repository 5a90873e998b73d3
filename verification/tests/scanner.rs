use kx_lexer::{Error, Scanner};

#[test]
fn new_scanner_starts_at_zero() {
    let scanner = Scanner::new("abc");
    assert_eq!(scanner.get_pos(), 0);
    assert!(!scanner.is_eof());
}

#[test]
fn empty_text_is_at_eof() {
    let scanner = Scanner::new("");
    assert!(scanner.is_eof());
    assert_eq!(scanner.get_pos(), 0);
    assert_eq!(scanner.peek(), Err(Error::OutOfRange));
}

#[test]
fn scanner_from_text_values() {
    let owned = String::from("xy");
    let mut a = Scanner::from("xy");
    let mut b = Scanner::from(&owned);
    let mut c = Scanner::from(owned.clone());
    assert_eq!(a.read_len(2), Ok("xy".to_string()));
    assert_eq!(b.read_len(2), Ok("xy".to_string()));
    assert_eq!(c.read_len(2), Ok("xy".to_string()));
}

#[test]
fn peek_does_not_move() {
    let scanner = Scanner::new("abc");
    assert_eq!(scanner.peek(), Ok('a'));
    assert_eq!(scanner.peek(), Ok('a'));
    assert_eq!(scanner.get_pos(), 0);
}

#[test]
fn peek_len_returns_prefix() {
    let scanner = Scanner::new("abcdef");
    assert_eq!(scanner.peek_len(3), Ok("abc".to_string()));
    assert_eq!(scanner.peek_len(6), Ok("abcdef".to_string()));
    assert_eq!(scanner.peek_len(0), Ok(String::new()));
    assert_eq!(scanner.get_pos(), 0);
}

#[test]
fn peek_len_past_end_is_out_of_range() {
    let scanner = Scanner::new("abc");
    assert_eq!(scanner.peek_len(4), Err(Error::OutOfRange));
    assert_eq!(scanner.peek_len(usize::MAX), Err(Error::OutOfRange));
}

#[test]
fn peek_range_takes_offset_and_count() {
    let mut scanner = Scanner::new("abcdefgh");
    assert_eq!(scanner.peek_range(1..3), Ok("bcd".to_string()));
    assert_eq!(scanner.peek_range(0..2), Ok("ab".to_string()));
    assert_eq!(scanner.peek_range(5..3), Ok("fgh".to_string()));
    assert_eq!(scanner.peek_range(8..0), Ok(String::new()));
    assert_eq!(scanner.skip_len(2), Ok(()));
    assert_eq!(scanner.peek_range(1..3), Ok("def".to_string()));
    assert_eq!(scanner.get_pos(), 2);
}

#[test]
fn peek_range_past_end_is_out_of_range() {
    let scanner = Scanner::new("abcd");
    assert_eq!(scanner.peek_range(2..3), Err(Error::OutOfRange));
    assert_eq!(scanner.peek_range(5..0), Err(Error::OutOfRange));
    assert_eq!(scanner.peek_range(usize::MAX..1), Err(Error::OutOfRange));
    assert_eq!(scanner.peek_range(1..usize::MAX), Err(Error::OutOfRange));
}

#[test]
fn check_len_counts_from_cursor() {
    let mut scanner = Scanner::new("abc");
    assert_eq!(scanner.check_len(0), Ok(()));
    assert_eq!(scanner.check_len(3), Ok(()));
    assert_eq!(scanner.check_len(4), Err(Error::OutOfRange));
    assert_eq!(scanner.skip_len(2), Ok(()));
    assert_eq!(scanner.check_len(1), Ok(()));
    assert_eq!(scanner.check_len(2), Err(Error::OutOfRange));
    assert_eq!(scanner.skip(), Ok(()));
    assert_eq!(scanner.check_len(0), Ok(()));
    assert_eq!(scanner.check_len(1), Err(Error::OutOfRange));
    assert_eq!(scanner.check_len(usize::MAX), Err(Error::OutOfRange));
}

#[test]
fn skip_len_moves_or_fails_unchanged() {
    let mut scanner = Scanner::new("abcd");
    assert_eq!(scanner.skip_len(3), Ok(()));
    assert_eq!(scanner.get_pos(), 3);
    assert_eq!(scanner.skip_len(2), Err(Error::OutOfRange));
    assert_eq!(scanner.get_pos(), 3);
    assert_eq!(scanner.skip_len(0), Ok(()));
    assert_eq!(scanner.get_pos(), 3);
    assert_eq!(scanner.skip_len(1), Ok(()));
    assert_eq!(scanner.get_pos(), 4);
    assert!(scanner.is_eof());
}

#[test]
fn skip_at_end_fails() {
    let mut scanner = Scanner::new("a");
    assert_eq!(scanner.skip(), Ok(()));
    assert_eq!(scanner.skip(), Err(Error::OutOfRange));
    assert_eq!(scanner.get_pos(), 1);
}

#[test]
fn read_takes_one_character() {
    let mut scanner = Scanner::new("ab");
    assert_eq!(scanner.read(), Ok('a'));
    assert_eq!(scanner.get_pos(), 1);
    assert_eq!(scanner.read(), Ok('b'));
    assert_eq!(scanner.get_pos(), 2);
    assert_eq!(scanner.read(), Err(Error::OutOfRange));
    assert_eq!(scanner.get_pos(), 2);
}

#[test]
fn read_len_is_atomic() {
    let mut scanner = Scanner::new("hello");
    assert_eq!(scanner.read_len(2), Ok("he".to_string()));
    assert_eq!(scanner.get_pos(), 2);
    assert_eq!(scanner.read_len(4), Err(Error::OutOfRange));
    assert_eq!(scanner.get_pos(), 2);
    assert_eq!(scanner.read_len(3), Ok("llo".to_string()));
    assert_eq!(scanner.get_pos(), 5);
    assert_eq!(scanner.read_len(0), Ok(String::new()));
}

#[test]
fn positions_count_characters_not_bytes() {
    let mut scanner = Scanner::new("aé漢b");
    assert_eq!(scanner.check_len(4), Ok(()));
    assert_eq!(scanner.check_len(5), Err(Error::OutOfRange));
    assert_eq!(scanner.read(), Ok('a'));
    assert_eq!(scanner.read(), Ok('é'));
    assert_eq!(scanner.get_pos(), 2);
    assert_eq!(scanner.peek_len(2), Ok("漢b".to_string()));
    assert_eq!(scanner.read_len(2), Ok("漢b".to_string()));
    assert_eq!(scanner.get_pos(), 4);
    assert!(scanner.is_eof());
}

#[test]
fn clone_keeps_text_and_cursor() {
    let mut scanner = Scanner::new("abc");
    assert_eq!(scanner.skip(), Ok(()));
    let mut copy = scanner.clone();
    assert_eq!(copy.get_pos(), 1);
    assert_eq!(copy.read_len(2), Ok("bc".to_string()));
    assert_eq!(scanner.get_pos(), 1);
    assert_eq!(scanner.peek(), Ok('b'));
}
