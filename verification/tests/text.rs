use genet_livery::text::{
    collapsed_text_width, collapsed_word_width, eq_ignore_ascii_case, is_collapsible_whitespace,
    parse_usize, str_equal, trim_unicode,
};

fn chars(text: &str) -> Vec<char> {
    text.chars().collect()
}

#[test]
fn collapsible_whitespace_is_the_five_css_characters() {
    assert!(is_collapsible_whitespace(" \t\n\r\u{c}"));
    assert!(is_collapsible_whitespace(""));
    assert!(!is_collapsible_whitespace("\u{a0}"));
    assert!(!is_collapsible_whitespace(" x "));
}

#[test]
fn collapsed_text_width_counts_letters_and_inner_single_spaces() {
    assert_eq!(collapsed_text_width("  ab  cd "), 5);
    assert_eq!(collapsed_text_width(""), 0);
    assert_eq!(collapsed_text_width(" \n\t "), 0);
    assert_eq!(collapsed_text_width("a\u{a0}b"), 3);
}

#[test]
fn collapsed_word_width_is_the_longest_run() {
    assert_eq!(collapsed_word_width("  ab  cde "), 3);
    assert_eq!(collapsed_word_width("abcd"), 4);
    assert_eq!(collapsed_word_width("   "), 0);
}

#[test]
fn unicode_trim_and_decimal_parse() {
    assert_eq!(trim_unicode(&chars("\u{a0} 7 \u{2003}")), chars("7"));
    assert_eq!(parse_usize(&chars("+3")), Some(3));
    assert_eq!(parse_usize(&chars("042")), Some(42));
    assert_eq!(parse_usize(&chars("")), None);
    assert_eq!(parse_usize(&chars("+")), None);
    assert_eq!(parse_usize(&chars("-1")), None);
    assert_eq!(parse_usize(&chars("1 2")), None);
    assert_eq!(parse_usize(&chars("99999999999999999999999")), None);
}

#[test]
fn string_comparisons() {
    assert!(eq_ignore_ascii_case("TextArea", "textarea"));
    assert!(!eq_ignore_ascii_case("text", "textarea"));
    assert!(str_equal("node:1", "node:1"));
    assert!(!str_equal("node:1", "node:2"));
}
