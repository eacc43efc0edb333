use traffic_core::text::{
    chars_of, contains_char, decimal_string, digit_text, is_whitespace_char,
    read_back_whitespace, text_between, trim_bounds,
};

fn chars(s: &str) -> Vec<char> {
    s.chars().collect()
}

#[test]
fn whitespace_is_what_std_calls_whitespace() {
    let mut code: u32 = 0;
    while code <= 0x10FFFF {
        if let Some(c) = char::from_u32(code) {
            assert_eq!(is_whitespace_char(c), c.is_whitespace(), "U+{:04X}", code);
        }
        code += 1;
    }
}

#[test]
fn whitespace_examples() {
    for c in [' ', '\t', '\n', '\r', '\u{b}', '\u{c}', '\u{85}', '\u{a0}', '\u{1680}'] {
        assert!(is_whitespace_char(c));
    }
    for c in ['\u{2000}', '\u{200a}', '\u{2028}', '\u{2029}', '\u{202f}', '\u{205f}', '\u{3000}'] {
        assert!(is_whitespace_char(c));
    }
    for c in ['a', '0', '-', '\u{8}', '\u{e}', '\u{200b}', '\u{180e}', '\u{feff}', '\u{1f}'] {
        assert!(!is_whitespace_char(c));
    }
}

#[test]
fn chars_of_keeps_every_character() {
    assert_eq!(chars_of(""), Vec::<char>::new());
    assert_eq!(chars_of("a-1"), vec!['a', '-', '1']);
    assert_eq!(chars_of("é 😀"), vec!['é', ' ', '😀']);
}

#[test]
fn trim_bounds_agree_with_trim() {
    let texts = [
        "",
        " ",
        "  \t\n ",
        "a",
        " a",
        "a ",
        "  a b  ",
        "\u{a0}x\u{3000}",
        "\u{2003}\u{2003}",
        "x\u{200b} ",
        " \u{85}él an \u{1680}",
    ];
    for text in texts {
        let all = chars(text);
        let (a, b) = trim_bounds(&all);
        assert!(a <= b && b <= all.len());
        let kept: String = all[a..b].iter().collect();
        assert_eq!(kept, text.trim(), "{:?}", text);
    }
}

#[test]
fn trim_bounds_of_blank_text_are_empty_at_the_end() {
    assert_eq!(trim_bounds(&chars("   ")), (3, 3));
    assert_eq!(trim_bounds(&chars("")), (0, 0));
    assert_eq!(trim_bounds(&chars(" ab ")), (1, 3));
}

#[test]
fn stepping_back_over_whitespace() {
    let all = chars("ab  c \t");
    assert_eq!(read_back_whitespace(&all, 7), 5);
    assert_eq!(read_back_whitespace(&all, 5), 5);
    assert_eq!(read_back_whitespace(&all, 4), 2);
    assert_eq!(read_back_whitespace(&all, 0), 0);
    assert_eq!(read_back_whitespace(&chars("   "), 3), 0);
}

#[test]
fn decimal_string_is_base_ten() {
    assert_eq!(decimal_string(0), "0");
    assert_eq!(decimal_string(7), "7");
    assert_eq!(decimal_string(10), "10");
    assert_eq!(decimal_string(65535), "65535");
    assert_eq!(decimal_string(1_000_000), "1000000");
    assert_eq!(decimal_string(u64::MAX), "18446744073709551615");
    let mut n: u64 = 0;
    while n < 3000 {
        assert_eq!(decimal_string(n), n.to_string());
        n += 1;
    }
}

#[test]
fn digit_text_of_each_digit() {
    let expected = ["0", "1", "2", "3", "4", "5", "6", "7", "8", "9"];
    for (d, text) in expected.iter().enumerate() {
        assert_eq!(digit_text(d as u64), *text);
    }
}

#[test]
fn contains_char_finds_it_anywhere() {
    assert!(contains_char(&chars("1-3"), '-'));
    assert!(contains_char(&chars("-"), '-'));
    assert!(contains_char(&chars("ab-"), '-'));
    assert!(!contains_char(&chars("13"), '-'));
    assert!(!contains_char(&chars(""), '-'));
}

#[test]
fn text_between_counts_characters() {
    assert_eq!(text_between("abcdef", 1, 4), "bcd");
    assert_eq!(text_between("abcdef", 0, 6), "abcdef");
    assert_eq!(text_between("abcdef", 3, 3), "");
    assert_eq!(text_between("éàü-x", 1, 4), "àü-");
}
