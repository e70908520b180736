use arbitest::atest::Location;
use arbitest::scanner::{
    consume_line, consume_word, is_ascii_digit, is_identifier_char, is_whitespace, locate,
    same_text, to_chars,
};

#[test]
fn characters_of_a_text() {
    assert_eq!(to_chars(""), Vec::<char>::new());
    assert_eq!(to_chars("a\u{e9}\u{1f600}"), vec!['a', '\u{e9}', '\u{1f600}']);
}

#[test]
fn white_space_is_what_std_calls_so() {
    let mut code: u32 = 0;
    while code <= 0x10ffff {
        if let Some(c) = char::from_u32(code) {
            assert_eq!(is_whitespace(c), c.is_whitespace(), "{:x}", code);
            assert_eq!(is_ascii_digit(c), c.is_ascii_digit(), "{:x}", code);
            assert_eq!(
                is_identifier_char(c),
                c.is_ascii_alphanumeric() || c == '_' || c == '-',
                "{:x}",
                code
            );
        }
        code += 1;
    }
}

#[test]
fn lines_end_at_newlines() {
    let src = to_chars("ab\ncd\n\nef");
    assert_eq!(consume_line(&src, 0), (2, 3));
    assert_eq!(consume_line(&src, 1), (2, 3));
    assert_eq!(consume_line(&src, 2), (2, 3));
    assert_eq!(consume_line(&src, 3), (5, 6));
    assert_eq!(consume_line(&src, 6), (6, 7));
    assert_eq!(consume_line(&src, 7), (9, 9));
    assert_eq!(consume_line(&src, 9), (9, 9));
}

#[test]
fn words_end_at_white_space() {
    let src = to_chars("one two\tthree\nfour\u{a0}five");
    assert_eq!(consume_word(&src, 0), 3);
    assert_eq!(consume_word(&src, 3), 3);
    assert_eq!(consume_word(&src, 4), 7);
    assert_eq!(consume_word(&src, 8), 13);
    assert_eq!(consume_word(&src, 14), 18);
    assert_eq!(consume_word(&src, 19), 23);
    assert_eq!(consume_word(&src, 23), 23);
}

#[test]
fn places_count_from_zero() {
    let src = to_chars("ab\n\u{e9}cd\n\nx");
    assert_eq!(locate(&src, 0), Location { line: 0, column: 0 });
    assert_eq!(locate(&src, 2), Location { line: 0, column: 2 });
    assert_eq!(locate(&src, 3), Location { line: 1, column: 0 });
    assert_eq!(locate(&src, 5), Location { line: 1, column: 2 });
    assert_eq!(locate(&src, 7), Location { line: 2, column: 0 });
    assert_eq!(locate(&src, 8), Location { line: 3, column: 0 });
    assert_eq!(locate(&src, 9), Location { line: 3, column: 1 });
}

#[test]
fn texts_are_compared_character_by_character() {
    assert!(same_text("", ""));
    assert!(same_text("h\u{e9}llo", "h\u{e9}llo"));
    assert!(!same_text("h\u{e9}llo", "hello"));
    assert!(!same_text("a", ""));
    assert!(!same_text("ab", "ba"));
}

#[test]
fn positions_beyond_the_text() {
    let src = to_chars("ab\ncd");
    assert_eq!(consume_line(&src, 5), (5, 5));
    assert_eq!(consume_line(&src, 9), (9, 9));
    assert_eq!(consume_word(&src, 5), 5);
    assert_eq!(consume_word(&src, 9), 9);
    assert_eq!(locate(&src, 5), Location { line: 1, column: 2 });
    assert_eq!(locate(&src, 6), Location { line: 0, column: 0 });
}
