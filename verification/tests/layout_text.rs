use conclave::layout::words::{
    apply_text_transform, capitalize, css_normalize_whitespace, css_split_whitespace,
    is_css_collapsible_ws, WordWrap,
};
use conclave::layout::TextTransform;

#[test]
fn text_transform_applied_before_measurement() {
    assert_eq!(apply_text_transform("Block", Some(TextTransform::Uppercase)), "BLOCK");
    assert_eq!(apply_text_transform("HASH", Some(TextTransform::Lowercase)), "hash");
    assert_eq!(
        apply_text_transform("hello world", Some(TextTransform::Capitalize)),
        "Hello World"
    );
    assert_eq!(apply_text_transform("Mixed", None), "Mixed");
}

#[test]
fn nbsp_not_treated_as_collapsible_whitespace() {
    let nbsp = '\u{00A0}';
    // Only no-break spaces: nothing changes.
    let only_nbsp = format!("{nbsp}{nbsp}{nbsp}");
    assert_eq!(css_normalize_whitespace(&only_nbsp), only_nbsp);
    // Spaces around one collapse; it stays.
    let mixed = format!("foo  {nbsp}  bar");
    assert_eq!(css_normalize_whitespace(&mixed), format!("foo {nbsp} bar"));
    // Words are not split at one.
    let with_nbsp = format!("foo{nbsp}bar");
    let parts: Vec<String> = css_split_whitespace(&with_nbsp);
    assert_eq!(parts, vec![with_nbsp.clone()], "NBSP must not split words");
}

#[test]
fn letters_of_other_scripts_change_case() {
    assert_eq!(
        apply_text_transform("stra\u{df}e \u{e9}t\u{e9}", Some(TextTransform::Uppercase)),
        "STRASSE \u{c9}T\u{c9}"
    );
    assert_eq!(
        apply_text_transform("\u{c9}T\u{c9}", Some(TextTransform::Lowercase)),
        "\u{e9}t\u{e9}"
    );
    assert_eq!(
        apply_text_transform("\u{e9}t\u{e9} 9lives", Some(TextTransform::Capitalize)),
        "\u{c9}t\u{e9} 9Lives"
    );
    assert_eq!(apply_text_transform("Mixed", Some(TextTransform::Unchanged)), "Mixed");
}

#[test]
fn capitals_stand_at_the_start_of_runs_of_letters() {
    let chars = ['a', 'b', ' ', 'c'];
    let letters = [true, true, false, true];
    let uppers = [vec!['A'], vec!['B'], vec![' '], vec!['C', 'C']];
    assert_eq!(capitalize(&chars, &letters, &uppers), "Ab CC");
}

#[test]
fn normalizing_twice_is_normalizing_once() {
    let once = css_normalize_whitespace("\n  a  b\n\t c \r\u{c}");
    assert_eq!(once, "a b c");
    assert_eq!(css_normalize_whitespace(&once), once);
    assert_eq!(css_normalize_whitespace(" \n "), "");
}

#[test]
fn collapsible_characters() {
    for ch in [' ', '\t', '\n', '\r', '\u{c}'] {
        assert!(is_css_collapsible_ws(ch));
    }
    for ch in ['\u{b}', '\u{a0}', '\u{2003}', 'x'] {
        assert!(!is_css_collapsible_ws(ch));
    }
}

#[test]
fn words_wrap_where_they_are_too_wide() {
    let mut wrap = WordWrap::new();
    for word in ["aa", "bbb", "c", "ddddddd", "e"] {
        let too_wide = wrap.trial(word).chars().count() > 6;
        wrap.advance(word, too_wide);
    }
    assert_eq!(wrap.finish(), vec!["aa bbb", "c", "ddddddd", "e"]);
}
