use sentinel::text::{
    chars_of, contains_chars, hex_encode, find, first_word_range, line_spans, push_decimal, same_text,
    starts_with_chars, string_of_range, trim_range, white_space,
};

fn lines_of(s: &str) -> Vec<String> {
    let chars = chars_of(s);
    line_spans(&chars)
        .into_iter()
        .map(|(a, b)| string_of_range(s, a, b))
        .collect()
}

#[test]
fn lines_split_on_newlines_and_drop_carriage_returns() {
    assert_eq!(lines_of("a\r\nb\n\nc"), vec!["a", "b", "", "c"]);
}

#[test]
fn lines_agree_with_std_lines() {
    for s in ["", "\n", "x", "x\n", "x\n\n", "a\rb\r", "a\r", "\r\n", "one\ntwo\r\nthree", "é\nü"] {
        let expected: Vec<String> = s.lines().map(|l| l.to_string()).collect();
        assert_eq!(lines_of(s), expected, "input {:?}", s);
    }
}

#[test]
fn trailing_newline_adds_no_line() {
    assert_eq!(lines_of("a\nb"), lines_of("a\nb\n"));
}

#[test]
fn substring_search() {
    let s = chars_of("say exec/s: 12");
    assert!(contains_chars(&s, &chars_of("exec/s:")));
    assert!(!contains_chars(&s, &chars_of("cov:")));
    assert_eq!(find(&s, &chars_of("s"), 0), Some(0));
    assert_eq!(find(&s, &chars_of("s"), 1), Some(9));
    assert_eq!(find(&s, &chars_of("zz"), 0), None);
    assert!(contains_chars(&s, &chars_of("")));
    assert!(starts_with_chars(&s, &chars_of("say")));
    assert!(!starts_with_chars(&chars_of("sa"), &chars_of("say")));
}

#[test]
fn trimming_and_words() {
    let s = chars_of(" \t hello world \u{3000}");
    let (a, b) = trim_range(&s, 0, s.len());
    let t: String = s[a..b].iter().collect();
    assert_eq!(t, " \t hello world \u{3000}".trim());
    let (a, b) = first_word_range(&s, 0, s.len()).unwrap();
    let w: String = s[a..b].iter().collect();
    assert_eq!(w, "hello");
    let blank = chars_of("  \n ");
    assert_eq!(first_word_range(&blank, 0, blank.len()), None);
    let (a, b) = trim_range(&blank, 0, blank.len());
    assert_eq!(a, b);
}

#[test]
fn white_space_is_unicode_white_space() {
    for u in 0u32..0x3100 {
        if let Some(c) = char::from_u32(u) {
            assert_eq!(white_space(c), c.is_whitespace(), "char {:#x}", u);
        }
    }
}

#[test]
fn decimal_numerals() {
    for n in [0u64, 7, 10, 99, 100, 12345, u64::MAX] {
        let mut s = String::from("n=");
        push_decimal(&mut s, n);
        assert_eq!(s, format!("n={}", n));
    }
}

#[test]
fn text_equality() {
    assert!(same_text("no_overflow", "no_overflow"));
    assert!(!same_text("no_overflow", "no_overflo"));
    assert!(!same_text("abc", "abd"));
    assert!(same_text("", ""));
}

#[test]
fn hex_encoding() {
    assert_eq!(hex_encode(&[]), "");
    assert_eq!(hex_encode(&[0x00, 0x0f, 0xa0, 0xff]), "000fa0ff");
    let all: Vec<u8> = (0..=255u8).collect();
    let expected: String = all.iter().map(|b| format!("{:02x}", b)).collect();
    assert_eq!(hex_encode(&all), expected);
}
