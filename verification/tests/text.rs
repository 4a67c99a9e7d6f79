use domlist::{
    chars_of, contains_chars, i64_to_chars, is_whitespace, parse_i64_chars, split_chars,
    split_once_chars, trim_chars,
};

fn s(v: &[char]) -> String {
    v.iter().collect()
}

#[test]
fn parse_i64_like_std() {
    for t in [
        "0", "42", "+42", "-42", "", "+", "-", "+-1", "1a", " 1", "1 ", "007",
        "9223372036854775807", "9223372036854775808", "-9223372036854775808",
        "-9223372036854775809", "99999999999999999999999", "١",
    ] {
        assert_eq!(parse_i64_chars(&chars_of(t)), t.parse::<i64>().ok(), "{:?}", t);
    }
}

#[test]
fn decimal_text_like_to_string() {
    for v in [0i64, 7, 10, -1, 1234567890, i64::MAX, i64::MIN] {
        assert_eq!(s(&i64_to_chars(v)), v.to_string());
    }
}

#[test]
fn trim_like_std() {
    for t in ["", "  ", " a b ", "\t\u{a0}x\u{3000}\r\n", "x", "\u{200b}y"] {
        assert_eq!(s(&trim_chars(&chars_of(t))), t.trim(), "{:?}", t);
    }
}

#[test]
fn whitespace_like_std() {
    for c in ['\t', '\n', ' ', '\u{85}', '\u{a0}', '\u{1680}', '\u{2007}', '\u{2028}', '\u{3000}', 'a', '\u{200b}', '\u{180e}'] {
        assert_eq!(is_whitespace(c), c.is_whitespace(), "{:?}", c);
    }
}

#[test]
fn split_like_std() {
    for t in ["", "a", "a.b.c", ".a.", "..", "x=y=z"] {
        for sep in ['.', '='] {
            let got: Vec<String> = split_chars(&chars_of(t), sep).iter().map(|p| s(p)).collect();
            let want: Vec<String> = t.split(sep).map(|p| p.to_string()).collect();
            assert_eq!(got, want);
        }
    }
}

#[test]
fn split_once_like_std() {
    for t in ["", "a|b", "|", "a|b|c", "abc"] {
        let got = split_once_chars(&chars_of(t), '|').map(|(a, b)| (s(&a), s(&b)));
        let want = t.split_once('|').map(|(a, b)| (a.to_string(), b.to_string()));
        assert_eq!(got, want);
    }
}

#[test]
fn contains_like_std() {
    for (t, p) in [("Domain: 'x'", "Domain: "), ("Domain:'x'", "Domain: "), ("", ""), ("ab", "abc"), ("xxDomain: ", "Domain: ")] {
        assert_eq!(contains_chars(&chars_of(t), &chars_of(p)), t.contains(p));
    }
}
