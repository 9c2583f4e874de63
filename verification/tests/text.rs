use memprobe::chars::{
    char_is_whitespace, chars_of, first_token_bounds, scan_run, scan_run_back, trim_bounds,
    window_contains, CharClass,
};
use memprobe::number::{decimal_digit_char, digit_value, parse_radix, push_decimal, push_decimal_padded};

fn window(chars: &[char], bounds: (usize, usize)) -> String {
    chars[bounds.0..bounds.1].iter().collect()
}

#[test]
fn whitespace_is_the_unicode_property() {
    let mut code = 0u32;
    while code <= 0x10ffff {
        if let Some(c) = char::from_u32(code) {
            assert_eq!(char_is_whitespace(c), c.is_whitespace(), "U+{:04X}", code);
        }
        code += 1;
    }
}

#[test]
fn char_classes_decide_membership() {
    assert!(CharClass::Whitespace.test('\t'));
    assert!(!CharClass::Whitespace.test('x'));
    assert!(CharClass::Word.test('x'));
    assert!(!CharClass::Word.test('\u{3000}'));
    assert!(CharClass::Until('-').test('x'));
    assert!(!CharClass::Until('-').test('-'));
}

#[test]
fn chars_of_keeps_every_character() {
    assert_eq!(chars_of("a\u{e9}\u{1f600}z"), vec!['a', '\u{e9}', '\u{1f600}', 'z']);
    assert_eq!(chars_of(""), Vec::<char>::new());
}

#[test]
fn scan_run_stops_at_the_first_character_outside_the_class() {
    let chars = chars_of("  \tabc def");
    assert_eq!(scan_run(&chars, 0, chars.len(), CharClass::Whitespace), 3);
    assert_eq!(scan_run(&chars, 3, chars.len(), CharClass::Word), 6);
    assert_eq!(scan_run(&chars, 3, 5, CharClass::Word), 5);
    assert_eq!(scan_run(&chars, 0, chars.len(), CharClass::Until('d')), 7);
    assert_eq!(scan_run(&chars, 0, chars.len(), CharClass::Until('#')), chars.len());
    assert_eq!(scan_run(&chars, 4, 4, CharClass::Word), 4);
}

#[test]
fn scan_run_back_stops_at_the_last_character_outside_the_class() {
    let chars = chars_of("abc \n ");
    assert_eq!(scan_run_back(&chars, 0, chars.len(), CharClass::Whitespace), 3);
    assert_eq!(scan_run_back(&chars, 4, chars.len(), CharClass::Whitespace), 4);
    assert_eq!(scan_run_back(&chars, 0, 3, CharClass::Whitespace), 3);
}

#[test]
fn trim_bounds_agree_with_trim() {
    for text in ["", " ", "abc", "  abc", "abc  ", " \t a b \r\n", "\u{a0}x\u{2003}", "\n\n"] {
        let chars = chars_of(text);
        let bounds = trim_bounds(&chars, 0, chars.len());
        assert_eq!(window(&chars, bounds), text.trim(), "{:?}", text);
    }
}

#[test]
fn first_token_bounds_agree_with_split_whitespace() {
    for text in ["", "   ", "abc", "  abc def", "a\tb", "\u{2003}x y", "one\ntwo"] {
        let chars = chars_of(text);
        let bounds = first_token_bounds(&chars, 0, chars.len());
        assert_eq!(window(&chars, bounds), text.split_whitespace().next().unwrap_or(""), "{:?}", text);
    }
}

#[test]
fn window_contains_agrees_with_contains() {
    let texts = ["", "[heap]", "x [heap] y", "[hea", "[heap", "heap]", "[[heap]]", "[he[heap]", "aaa"];
    let patterns = ["", "[heap]", "a", "aa", "aaaa", "]"];
    for text in texts {
        for pattern in patterns {
            let chars = chars_of(text);
            let wanted = chars_of(pattern);
            assert_eq!(
                window_contains(&chars, 0, chars.len(), &wanted),
                text.contains(pattern),
                "{:?} in {:?}",
                pattern,
                text
            );
        }
    }
}

#[test]
fn window_contains_looks_inside_the_window_only() {
    let chars = chars_of("ab[heap]cd");
    let wanted = chars_of("[heap]");
    assert!(window_contains(&chars, 2, 8, &wanted));
    assert!(!window_contains(&chars, 3, 8, &wanted));
    assert!(!window_contains(&chars, 2, 7, &wanted));
    assert!(!window_contains(&chars, 0, 0, &wanted));
}

#[test]
fn digit_value_agrees_with_to_digit() {
    let mut code = 0u32;
    while code < 0x250 {
        if let Some(c) = char::from_u32(code) {
            for radix in [2u32, 8, 10, 16, 36] {
                assert_eq!(digit_value(c, radix), c.to_digit(radix), "{:?} in {}", c, radix);
            }
        }
        code += 1;
    }
}

#[test]
fn parse_radix_agrees_with_from_str_radix() {
    let texts = [
        "", "+", "-", "0", "00", "7", "+7", "-7", "++7", "7+", "12a", "ff", "FF", "fF0", "0x10",
        "g", " 1", "1 ", "18446744073709551615", "18446744073709551616", "ffffffffffffffff",
        "10000000000000000", "+ffffffffffffffff", "00000000000000000000000000000001",
        "99999999999999999999999999", "7f0000000000", "\u{663}", "1_000",
    ];
    for text in texts {
        for radix in [10u32, 16] {
            let chars = chars_of(text);
            assert_eq!(
                parse_radix(&chars, 0, chars.len(), radix, u64::MAX),
                u64::from_str_radix(text, radix).ok(),
                "{:?} in {}",
                text,
                radix
            );
        }
    }
}

#[test]
fn parse_radix_holds_the_number_to_its_bound() {
    for text in ["4294967295", "4294967296", "0", "255", "256", "+255"] {
        let chars = chars_of(text);
        assert_eq!(
            parse_radix(&chars, 0, chars.len(), 10, u32::MAX as u64),
            text.parse::<u32>().ok().map(|n| n as u64)
        );
        assert_eq!(
            parse_radix(&chars, 0, chars.len(), 10, 255),
            text.parse::<u8>().ok().map(|n| n as u64)
        );
    }
}

#[test]
fn parse_radix_reads_the_window_only() {
    let chars = chars_of("x12-34y");
    assert_eq!(parse_radix(&chars, 1, 3, 10, u64::MAX), Some(12));
    assert_eq!(parse_radix(&chars, 4, 6, 16, u64::MAX), Some(0x34));
    assert_eq!(parse_radix(&chars, 0, 3, 10, u64::MAX), None);
    assert_eq!(parse_radix(&chars, 3, 3, 10, u64::MAX), None);
}

#[test]
fn decimal_digit_chars_are_the_ten_digits() {
    let digits: String = (0u8..10).map(decimal_digit_char).collect();
    assert_eq!(digits, "0123456789");
}

#[test]
fn push_decimal_agrees_with_display() {
    for n in [0u64, 1, 9, 10, 11, 99, 100, 101, 12345, 4294967295, 4294967296, u64::MAX] {
        let mut text = String::from("n=");
        push_decimal(&mut text, n);
        assert_eq!(text, format!("n={}", n));
    }
}

#[test]
fn push_decimal_padded_agrees_with_display() {
    for n in [0u64, 5, 9, 10, 42, 99, 100, 12345] {
        let mut two = String::from(".");
        push_decimal_padded(&mut two, n, 2);
        assert_eq!(two, format!(".{:02}", n));
        let mut five = String::new();
        push_decimal_padded(&mut five, n, 5);
        assert_eq!(five, format!("{:05}", n));
        let mut none = String::new();
        push_decimal_padded(&mut none, n, 0);
        assert_eq!(none, format!("{}", n));
    }
}
