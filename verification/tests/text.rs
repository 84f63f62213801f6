use conclave::text::{
    chars_of, is_real_text, lowercase, parse_number, split_at, string_of, trimmed, uppercase, white,
};

fn chars(s: &str) -> Vec<char> {
    chars_of(s)
}

#[test]
fn white_space_is_that_of_the_language() {
    for c in '\0'..=char::MAX {
        assert_eq!(white(c), c.is_whitespace(), "{c:?}");
    }
}

#[test]
fn texts_are_their_characters() {
    let s = "a\u{e9}\u{10348}";
    assert_eq!(chars(s), vec!['a', '\u{e9}', '\u{10348}']);
    assert_eq!(string_of(&chars(s)), s);
}

#[test]
fn real_numbers_are_those_of_the_language() {
    for s in [
        "", ".", "+", "-", "1", "1.", ".5", "-.5", "+1.25", "1e5", "1E-5", "1e", "e5", ".e5",
        "inf", "-Infinity", "NaN", "+nan", "nano", "1_0", " 1", "1 ", "0x10", "1.2.3", "--1",
        "1e+", "1.5e+10", "infin",
    ] {
        assert_eq!(is_real_text(&chars(s)), s.parse::<f64>().is_ok(), "{s:?}");
    }
}

#[test]
fn numbers_are_those_of_the_language() {
    for s in ["", "0", "007", "+5", "-5", "65535", "65536", "1a", " 1", "+"] {
        let expected = s.parse::<u16>().ok().map(|v| v as u64);
        assert_eq!(parse_number(&chars(s), u16::MAX as u64), expected, "{s:?}");
    }
    assert_eq!(parse_number(&chars("18446744073709551615"), u64::MAX), Some(u64::MAX));
    assert_eq!(parse_number(&chars("18446744073709551616"), u64::MAX), None);
}

#[test]
fn letters_change_case() {
    assert_eq!(string_of(&lowercase(&chars("AbZ\u{c9}9"))), "abz\u{c9}9");
    assert_eq!(string_of(&uppercase(&chars("aBz\u{e9}9"))), "ABZ\u{e9}9");
}

#[test]
fn texts_are_trimmed_and_split() {
    assert_eq!(string_of(trimmed(&chars("\u{2003} a b\t\n"))), "a b");
    let text = chars(",a,,b");
    let parts: Vec<String> = split_at(&text, ',').iter().map(|p| string_of(p)).collect();
    assert_eq!(parts, vec!["", "a", "", "b"]);
}
