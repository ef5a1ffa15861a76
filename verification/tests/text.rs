use rag_engine::text::{
    from_chars, is_terminator, is_whitespace, push_decimal, same_text, to_chars, trim_to_string,
};

#[test]
fn whitespace_is_what_std_calls_whitespace() {
    let mut code: u32 = 0;
    while code <= 0x10FFFF {
        if let Some(c) = char::from_u32(code) {
            assert_eq!(is_whitespace(c), c.is_whitespace(), "U+{:04X}", code);
        }
        code += 1;
    }
}

#[test]
fn terminators_are_period_bang_and_question_mark() {
    assert!(is_terminator('.'));
    assert!(is_terminator('!'));
    assert!(is_terminator('?'));
    assert!(!is_terminator(','));
    assert!(!is_terminator(';'));
    assert!(!is_terminator(' '));
    assert!(!is_terminator('\u{3002}'));
}

#[test]
fn to_chars_gives_the_characters_in_order() {
    assert_eq!(to_chars("a\u{e9}\u{4e2d}!"), vec!['a', '\u{e9}', '\u{4e2d}', '!']);
    assert_eq!(to_chars(""), Vec::<char>::new());
}

#[test]
fn from_chars_takes_the_range() {
    let v = to_chars("hello world");
    assert_eq!(from_chars(&v, 0, 5), "hello");
    assert_eq!(from_chars(&v, 6, 11), "world");
    assert_eq!(from_chars(&v, 3, 3), "");
    assert_eq!(from_chars(&v, 0, 11), "hello world");
}

#[test]
fn trim_to_string_agrees_with_trim() {
    let samples = [
        "",
        " ",
        "  \t\n",
        "abc",
        "  abc",
        "abc  ",
        " \u{a0}a b\u{3000}\n",
        "\u{2003}x\u{2003}",
        " a ",
        "a  b",
    ];
    for s in samples {
        let v = to_chars(s);
        assert_eq!(trim_to_string(&v, 0, v.len()), s.trim(), "{:?}", s);
    }
}

#[test]
fn trim_to_string_trims_within_the_range_only() {
    let v = to_chars("ab  cd  ef");
    assert_eq!(trim_to_string(&v, 2, 8), "cd");
    assert_eq!(trim_to_string(&v, 2, 4), "");
    assert_eq!(trim_to_string(&v, 1, 9), "b  cd  e");
}

#[test]
fn push_decimal_writes_the_numeral() {
    for n in [0usize, 1, 9, 10, 11, 99, 100, 101, 12345, 1_000_000, usize::MAX] {
        let mut s = String::from("x_");
        push_decimal(&mut s, n);
        assert_eq!(s, format!("x_{}", n));
    }
}

#[test]
fn same_text_compares_by_content() {
    assert!(same_text("abc", "abc"));
    assert!(same_text("", ""));
    assert!(!same_text("abc", "abd"));
    assert!(!same_text("abc", "ab"));
    assert!(!same_text("abc", "ABC"));
}
