use genet_livery::legacy_color::{hex, hex_string, parse_legacy_color, resolve_legacy_color};

fn srgb8(input: &str) -> Option<(u8, u8, u8, u8)> {
    parse_legacy_color(input).map(|color| color.to_srgb8())
}

#[test]
fn accepts_named_shorthand_and_legacy_garbage_forms() {
    assert_eq!(srgb8(" red "), Some((255, 0, 0, 255)));
    assert_eq!(srgb8("#0f8"), Some((0, 255, 136, 255)));
    assert_eq!(srgb8("chucknorris"), Some((192, 0, 0, 255)));
    assert_eq!(srgb8("\u{1f600}"), Some((0, 0, 0, 255)));
}

#[test]
fn rejects_only_the_algorithms_explicit_failures() {
    assert_eq!(srgb8(""), None);
    assert_eq!(srgb8("transparent"), None);
    assert_eq!(srgb8("  "), Some((0, 0, 0, 255)));
}

#[test]
fn transparent_is_refused_in_any_case_after_trimming() {
    assert_eq!(srgb8("\t TransParent\n"), None);
}

#[test]
fn named_colors_come_from_the_css_table() {
    assert_eq!(srgb8("RebeccaPurple"), Some((102, 51, 153, 255)));
    assert_eq!(srgb8("white"), Some((255, 255, 255, 255)));
}

#[test]
fn six_digit_hex_is_exact() {
    assert_eq!(srgb8("#ff8000"), Some((255, 128, 0, 255)));
    assert_eq!(srgb8("#abc"), Some((170, 187, 204, 255)));
}

#[test]
fn long_forms_pad_split_and_strip_common_zeros() {
    // "1234567" pads to "123456700": channels 123, 456, 700.
    assert_eq!(srgb8("#1234567"), Some((0x12, 0x45, 0x70, 255)));
    // Two-digit channels keep their leading zeros.
    assert_eq!(srgb8("#0a0b0c"), Some((0x0a, 0x0b, 0x0c, 255)));
    // Channels longer than eight digits keep their last eight.
    assert_eq!(
        srgb8("012345678901234567890123456789"),
        Some((0x23, 0x23, 0x23, 255))
    );
    // A zero leading every channel is dropped while channels are longer
    // than two digits; non-hex characters read as zeros.
    assert_eq!(srgb8("0x10y20z3"), Some((0x01, 0x02, 0x03, 255)));
}

#[test]
fn astral_characters_count_as_two_zeros() {
    assert_eq!(srgb8("\u{1f600}f"), Some((0, 0, 15, 255)));
}

#[test]
fn hex_digits_and_strings() {
    assert_eq!(hex('0'), Some(0));
    assert_eq!(hex('a'), Some(10));
    assert_eq!(hex('F'), Some(15));
    assert_eq!(hex('g'), None);
    assert_eq!(hex_string(b""), None);
    assert_eq!(hex_string(b"c"), Some(12));
    assert_eq!(hex_string(b"1f9"), Some(0x1f));
    assert_eq!(hex_string(b"z1"), None);
}

#[test]
fn a_named_color_wins_over_the_hex_reading() {
    let trimmed: Vec<char> = "bad".chars().collect();
    assert_eq!(
        resolve_legacy_color(&trimmed, Some((1, 2, 3))).to_srgb8(),
        (1, 2, 3, 255)
    );
    assert_eq!(
        resolve_legacy_color(&trimmed, None).to_srgb8(),
        (11, 10, 13, 255)
    );
}
