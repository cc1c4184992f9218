use script_lexer::chars::{is_digit, is_letter, is_space, CharClass};
use script_lexer::text::{chars_of, end_of_run, start_of_run, string_of, trim_both, trim_left};

fn chars(text: &str) -> Vec<char> {
    text.chars().collect()
}

#[test]
fn letters_and_the_underscore_are_letters() {
    for c in "abcxyzABCXYZ_".chars() {
        assert!(is_letter(c), "{}", c);
    }
    assert!(is_letter('\u{e9}'));
    assert!(is_letter('\u{4eac}'));
}

#[test]
fn other_characters_are_no_letters() {
    for c in "0123456789 \t\n.,;:!?@#$%^&*()-+=[]{}<>/\\|'\"`~".chars() {
        assert!(!is_letter(c), "{:?}", c);
    }
    assert!(!is_letter('\u{a0}'));
    assert!(!is_letter('\u{663}'));
}

#[test]
fn ascii_letters_are_exactly_the_letters() {
    for code in 0u8..128 {
        let c = code as char;
        assert_eq!(is_letter(c), c.is_ascii_alphabetic() || c == '_', "{:?}", c);
    }
}

#[test]
fn ascii_spaces_are_exactly_the_six() {
    for code in 0u8..128 {
        let c = code as char;
        let expected = matches!(c, ' ' | '\t' | '\n' | '\u{b}' | '\u{c}' | '\r');
        assert_eq!(CharClass::Space.admits(c), expected, "{:?}", c);
    }
    assert!(CharClass::Space.admits('\u{a0}'));
    assert!(CharClass::Space.admits('\u{2003}'));
    assert!(!CharClass::Space.admits('\u{200b}'));
}

#[test]
fn ascii_digits_are_exactly_the_ten() {
    for code in 0u8..128 {
        let c = code as char;
        let expected = c.is_ascii_digit() || c == '.' || c == '_';
        assert_eq!(CharClass::NumeralPart.admits(c), expected, "{:?}", c);
    }
    assert!(CharClass::NumeralPart.admits('\u{663}'));
    assert!(CharClass::NumeralPart.admits('\u{be}'));
    assert!(!CharClass::NumeralPart.admits('\u{e9}'));
}

#[test]
fn the_classes_hold_their_characters() {
    assert!(CharClass::Letter.admits('a'));
    assert!(CharClass::Letter.admits('_'));
    assert!(!CharClass::Letter.admits('1'));
    assert!(CharClass::LineText.admits('a'));
    assert!(CharClass::LineText.admits('\r'));
    assert!(CharClass::LineText.admits(' '));
    assert!(!CharClass::LineText.admits('\n'));
}

#[test]
fn chars_of_gives_the_characters() {
    assert_eq!(chars_of(""), Vec::<char>::new());
    assert_eq!(chars_of("ab c"), vec!['a', 'b', ' ', 'c']);
    assert_eq!(chars_of("h\u{e9}\u{4eac}"), vec!['h', '\u{e9}', '\u{4eac}']);
}

#[test]
fn string_of_gives_a_part() {
    let v = chars("hello world");
    assert_eq!(string_of(&v, 0, 5), "hello");
    assert_eq!(string_of(&v, 6, 11), "world");
    assert_eq!(string_of(&v, 3, 3), "");
    assert_eq!(string_of(&v, 0, 11), "hello world");
}

#[test]
fn a_run_ends_where_its_class_ends() {
    let v = chars("  abc_d1 ");
    assert_eq!(end_of_run(&v, 0, CharClass::Space), 2);
    assert_eq!(end_of_run(&v, 2, CharClass::Space), 2);
    assert_eq!(end_of_run(&v, 2, CharClass::Letter), 7);
    assert_eq!(end_of_run(&v, 7, CharClass::NumeralPart), 8);
    assert_eq!(end_of_run(&v, 8, CharClass::Space), 9);
    assert_eq!(end_of_run(&v, 9, CharClass::Space), 9);
    assert_eq!(end_of_run(&v, 0, CharClass::LineText), 9);
    assert_eq!(end_of_run(&chars("ab\ncd"), 0, CharClass::LineText), 2);
}

#[test]
fn a_run_starts_where_its_class_starts() {
    let v = chars("ab   ");
    assert_eq!(start_of_run(&v, 0, 5, CharClass::Space), 2);
    assert_eq!(start_of_run(&v, 3, 5, CharClass::Space), 3);
    assert_eq!(start_of_run(&v, 0, 2, CharClass::Space), 2);
    assert_eq!(start_of_run(&v, 0, 2, CharClass::Letter), 0);
    assert_eq!(start_of_run(&chars("   "), 0, 3, CharClass::Space), 0);
}

#[test]
fn trim_left_drops_leading_whitespace() {
    assert_eq!(trim_left(" comment"), "comment");
    assert_eq!(trim_left("comment"), "comment");
    assert_eq!(trim_left(" \t\n comment  "), "comment  ");
    assert_eq!(trim_left("   "), "");
    assert_eq!(trim_left(""), "");
    assert_eq!(trim_left("\u{a0}x"), "x");
    assert_eq!(trim_left("a b"), "a b");
}

#[test]
fn trim_left_agrees_with_the_standard_library() {
    for text in ["", " ", "a", " a", "a ", "  a  b  ", "\n\ta\n", "\u{2003}a", "\u{200b}a"] {
        assert_eq!(trim_left(text), text.trim_start(), "{:?}", text);
    }
}

#[test]
fn trim_both_drops_whitespace_at_both_ends() {
    assert_eq!(trim_both(" comment "), "comment");
    assert_eq!(trim_both("\ncomment on\nmultiple lines\n"), "comment on\nmultiple lines");
    assert_eq!(trim_both("comment"), "comment");
    assert_eq!(trim_both("   "), "");
    assert_eq!(trim_both(""), "");
    assert_eq!(trim_both(" a  b "), "a  b");
}

#[test]
fn trim_both_agrees_with_the_standard_library() {
    for text in ["", " ", "a", " a", "a ", "  a  b  ", "\n\ta\n", "\u{2003}a\u{a0}", "\r\n"] {
        assert_eq!(trim_both(text), text.trim(), "{:?}", text);
    }
}

#[test]
fn spaces_are_what_the_standard_library_holds_to_be_whitespace() {
    for code in 0u32..=0x10ffff {
        if let Some(c) = char::from_u32(code) {
            assert_eq!(is_space(c), c.is_whitespace(), "{:?}", c);
        }
    }
}

#[test]
fn letters_are_what_the_standard_library_holds_to_be_alphabetic() {
    for code in 0u32..=0x10ffff {
        if let Some(c) = char::from_u32(code) {
            assert_eq!(is_letter(c), c.is_alphabetic() || c == '_', "{:?}", c);
        }
    }
}

#[test]
fn digits_are_what_the_standard_library_holds_to_be_numeric() {
    for code in 0u32..=0x10ffff {
        if let Some(c) = char::from_u32(code) {
            assert_eq!(is_digit(c), c.is_numeric(), "{:?}", c);
        }
    }
}

#[test]
fn digits_beyond_ascii_are_digits() {
    assert!(is_digit('7'));
    assert!(is_digit('\u{663}'));
    assert!(is_digit('\u{be}'));
    assert!(is_digit('\u{2460}'));
    assert!(!is_digit('K'));
    assert!(!is_digit('\u{4e09}'));
    assert!(!is_digit('.'));
    assert!(!is_digit('_'));
}

#[test]
fn spaces_beyond_ascii_are_spaces() {
    assert!(is_space(' '));
    assert!(is_space('\n'));
    assert!(is_space('\u{a0}'));
    assert!(is_space('\u{3000}'));
    assert!(!is_space('\u{8d8a}'));
    assert!(!is_space('\u{1c}'));
    assert!(!is_space('\u{0}'));
}
