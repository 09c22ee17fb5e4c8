//! HTML's legacy color parser ("rules for parsing a legacy colour value").
//!
//! The algorithm accepts almost anything: after the named-color and `#rgb`
//! shortcuts, every remaining string is reduced to three hexadecimal
//! channels. Only an empty input and the keyword `transparent` fail.

use vstd::prelude::*;

verus! {

/// An opaque sRGB color with 8-bit channels; legacy colors are never
/// translucent.
#[derive(Clone, Copy, Debug, PartialEq, Eq, Structural)]
pub struct LegacyColor {
    pub red: u8,
    pub green: u8,
    pub blue: u8,
}

impl LegacyColor {
    /// The four 8-bit sRGB components, alpha last (always 255).
    pub fn to_srgb8(&self) -> (components: (u8, u8, u8, u8))
        ensures
            components == (self.red, self.green, self.blue, 255u8),
    {
        (self.red, self.green, self.blue, 255)
    }
}

/// The value of one ASCII hexadecimal digit, or `None` for any other char.
pub open spec fn hex_value(c: char) -> Option<u8> {
    if '0' <= c && c <= '9' {
        Some((c as u32 - '0' as u32) as u8)
    } else if 'a' <= c && c <= 'f' {
        Some((c as u32 - 'a' as u32 + 10) as u8)
    } else if 'A' <= c && c <= 'F' {
        Some((c as u32 - 'A' as u32 + 10) as u8)
    } else {
        None
    }
}

/// The HTML space characters: tab, line feed, form feed, carriage return
/// and space.
pub open spec fn is_html_space(c: char) -> bool {
    c == '\u{0009}' || c == '\u{000a}' || c == '\u{000c}' || c == '\u{000d}' || c == ' '
}

pub open spec fn trim_html_start(s: Seq<char>) -> Seq<char>
    decreases s.len(),
{
    if s.len() > 0 && is_html_space(s[0]) {
        trim_html_start(s.drop_first())
    } else {
        s
    }
}

pub open spec fn trim_html_end(s: Seq<char>) -> Seq<char>
    decreases s.len(),
{
    if s.len() > 0 && is_html_space(s.last()) {
        trim_html_end(s.drop_last())
    } else {
        s
    }
}

/// The input with leading and trailing HTML spaces removed.
pub open spec fn trim_html_spaces(s: Seq<char>) -> Seq<char> {
    trim_html_end(trim_html_start(s))
}

pub open spec fn ascii_lower(c: char) -> char {
    if 'A' <= c && c <= 'Z' {
        ((c as u8) + 32) as u8 as char
    } else {
        c
    }
}

pub open spec fn transparent_keyword() -> Seq<char> {
    seq!['t', 'r', 'a', 'n', 's', 'p', 'a', 'r', 'e', 'n', 't']
}

/// ASCII case-insensitive equality with `transparent`.
pub open spec fn is_transparent_keyword(s: Seq<char>) -> bool {
    &&& s.len() == transparent_keyword().len()
    &&& forall|i: int| 0 <= i < s.len() ==> ascii_lower(#[trigger] s[i]) == transparent_keyword()[i]
}

/// The `#rgb` shorthand: `#` and exactly three hexadecimal digits, each
/// widened by repetition (`f` is `ff`).
pub open spec fn short_hex_color(s: Seq<char>) -> Option<(u8, u8, u8)> {
    if s.len() == 4 && s[0] == '#' && hex_value(s[1]) is Some && hex_value(s[2]) is Some
        && hex_value(s[3]) is Some {
        Some(
            (
                (hex_value(s[1])->0 * 17) as u8,
                (hex_value(s[2])->0 * 17) as u8,
                (hex_value(s[3])->0 * 17) as u8,
            ),
        )
    } else {
        None
    }
}

/// Each code point outside the Basic Multilingual Plane becomes `00`.
pub open spec fn expand_astral(s: Seq<char>) -> Seq<char>
    decreases s.len(),
{
    if s.len() == 0 {
        seq![]
    } else if (s.last() as u32) > 0xffff {
        expand_astral(s.drop_last()) + seq!['0', '0']
    } else {
        expand_astral(s.drop_last()).push(s.last())
    }
}

/// At most the first 128 characters.
pub open spec fn first_128(s: Seq<char>) -> Seq<char> {
    if s.len() > 128 {
        s.take(128)
    } else {
        s
    }
}

pub open spec fn strip_hash(s: Seq<char>) -> Seq<char> {
    if s.len() > 0 && s[0] == '#' {
        s.drop_first()
    } else {
        s
    }
}

/// A hexadecimal digit keeps its ASCII byte; anything else reads as `0`.
pub open spec fn digit_byte(c: char) -> u8 {
    if hex_value(c) is Some {
        c as u8
    } else {
        '0' as u8
    }
}

pub open spec fn digit_bytes(s: Seq<char>) -> Seq<u8> {
    Seq::new(s.len(), |i: int| digit_byte(s[i]))
}

/// Zeros appended until the length is a nonzero multiple of three.
pub open spec fn pad_len(n: nat) -> nat {
    if n == 0 {
        3
    } else if n % 3 == 0 {
        0
    } else {
        (3 - n % 3) as nat
    }
}

pub open spec fn padded(d: Seq<u8>) -> Seq<u8> {
    d + Seq::new(pad_len(d.len()), |i: int| '0' as u8)
}

/// The last eight digits of a channel longer than eight.
pub open spec fn last_8(c: Seq<u8>) -> Seq<u8> {
    if c.len() > 8 {
        c.skip(c.len() - 8)
    } else {
        c
    }
}

/// Leading zeros are dropped from all three channels together while every
/// channel still has more than two digits and all three start with `0`.
pub open spec fn strip_common_zeros(r: Seq<u8>, g: Seq<u8>, b: Seq<u8>) -> (Seq<u8>, Seq<u8>, Seq<u8>)
    decreases r.len(),
{
    if r.len() > 2 && g.len() > 0 && b.len() > 0 && r[0] == '0' as u8 && g[0] == '0' as u8
        && b[0] == '0' as u8 {
        strip_common_zeros(r.drop_first(), g.drop_first(), b.drop_first())
    } else {
        (r, g, b)
    }
}

/// The channel byte denoted by (at most) the first two digits.
pub open spec fn channel_value(c: Seq<u8>) -> u8 {
    if c.len() == 1 {
        hex_value(c[0] as char)->0
    } else {
        (hex_value(c[0] as char)->0 * 16 + hex_value(c[1] as char)->0) as u8
    }
}

/// The three channels of the general (non-keyword, non-shorthand) form.
pub open spec fn long_form_channels(s: Seq<char>) -> (Seq<u8>, Seq<u8>, Seq<u8>) {
    let d = padded(digit_bytes(strip_hash(first_128(expand_astral(s)))));
    let n = d.len() / 3;
    strip_common_zeros(
        last_8(d.subrange(0, n as int)),
        last_8(d.subrange(n as int, 2 * n as int)),
        last_8(d.subrange(2 * n as int, d.len() as int)),
    )
}

pub open spec fn long_form_color(s: Seq<char>) -> (u8, u8, u8) {
    let (r, g, b) = long_form_channels(s);
    (channel_value(r), channel_value(g), channel_value(b))
}

/// The color a trimmed, non-`transparent` input denotes, given what the CSS
/// named-color table holds for it.
pub open spec fn resolved_legacy_color(s: Seq<char>, named: Option<(u8, u8, u8)>) -> (u8, u8, u8) {
    if named is Some {
        named->0
    } else if short_hex_color(s) is Some {
        short_hex_color(s)->0
    } else {
        long_form_color(s)
    }
}

/// What the CSS named-color table (cssparser's `parse_named_color`) holds
/// for a keyword; `None` when the text names no color.
pub uninterp spec fn css_named_color(name: Seq<char>) -> Option<(u8, u8, u8)>;

/// The complete legacy color algorithm over the input's characters.
pub open spec fn legacy_color(input: Seq<char>) -> Option<(u8, u8, u8)> {
    let t = trim_html_spaces(input);
    if input.len() == 0 || is_transparent_keyword(t) {
        None
    } else {
        Some(resolved_legacy_color(t, css_named_color(t)))
    }
}

pub open spec fn as_rgb(c: LegacyColor) -> (u8, u8, u8) {
    (c.red, c.green, c.blue)
}

} // verus!

verus! {

/// Looks a keyword up in cssparser's CSS named-color table
/// (`cssparser::color::parse_named_color`, ASCII case-insensitive). The
/// contract only names the table's answer; what the table holds is not
/// stated here.
#[verifier::external_body]
fn named_color(name: &[char]) -> (color: Option<(u8, u8, u8)>)
    ensures
        color == css_named_color(name@),
{
    let name: String = name.iter().collect();
    cssparser::color::parse_named_color(&name).ok()
}

/// Value of an ASCII hexadecimal digit.
pub fn hex(character: char) -> (digit: Option<u8>)
    ensures
        digit == hex_value(character),
        digit matches Some(d) ==> d < 16,
{
    if '0' <= character && character <= '9' {
        Some((character as u32 - '0' as u32) as u8)
    } else if 'a' <= character && character <= 'f' {
        Some((character as u32 - 'a' as u32 + 10) as u8)
    } else if 'A' <= character && character <= 'F' {
        Some((character as u32 - 'A' as u32 + 10) as u8)
    } else {
        None
    }
}

/// The byte denoted by the first one or two hexadecimal digits of a channel.
pub fn hex_string(string: &[u8]) -> (value: Option<u8>)
    ensures
        string@.len() == 0 ==> value is None,
        string@.len() == 1 ==> value == hex_value(string@[0] as char),
        string@.len() >= 2 ==> value == (if hex_value(string@[0] as char) is Some && hex_value(
            string@[1] as char,
        ) is Some {
            Some(
                (hex_value(string@[0] as char)->0 * 16 + hex_value(string@[1] as char)->0) as u8,
            )
        } else {
            None
        }),
{
    if string.len() == 0 {
        None
    } else if string.len() == 1 {
        hex(string[0] as char)
    } else {
        let upper = match hex(string[0] as char) {
            Some(d) => d,
            None => return None,
        };
        let lower = match hex(string[1] as char) {
            Some(d) => d,
            None => return None,
        };
        assert((upper << 4u8) | lower == upper * 16 + lower) by (bit_vector)
            requires
                upper < 16,
                lower < 16,
        ;
        Some((upper << 4) | lower)
    }
}

fn chars_of(s: &str) -> (v: Vec<char>)
    ensures
        v@ == s@,
{
    let mut v: Vec<char> = Vec::new();
    for c in it: s.chars()
        invariant
            v@ == it.seq().take(it.index() as int),
    {
        v.push(c);
    }
    v
}

fn is_html_space_char(c: char) -> (b: bool)
    ensures
        b == is_html_space(c),
{
    c == '\u{0009}' || c == '\u{000a}' || c == '\u{000c}' || c == '\u{000d}' || c == ' '
}

proof fn lemma_trim_start_skip(s: Seq<char>, i: int)
    requires
        0 <= i <= s.len(),
        forall|j: int| 0 <= j < i ==> is_html_space(#[trigger] s[j]),
    ensures
        trim_html_start(s) == trim_html_start(s.skip(i)),
    decreases i,
{
    if i == 0 {
        assert(s.skip(0) =~= s);
    } else {
        let t = s.drop_first();
        assert forall|j: int| 0 <= j < i - 1 implies is_html_space(#[trigger] t[j]) by {
            assert(t[j] == s[j + 1]);
        }
        lemma_trim_start_skip(t, i - 1);
        assert(t.skip(i - 1) =~= s.skip(i));
    }
}

proof fn lemma_trim_end_take(s: Seq<char>, j: int)
    requires
        0 <= j <= s.len(),
        forall|k: int| j <= k < s.len() ==> is_html_space(#[trigger] s[k]),
    ensures
        trim_html_end(s) == trim_html_end(s.take(j)),
    decreases s.len() - j,
{
    if j == s.len() {
        assert(s.take(j) =~= s);
    } else {
        let t = s.drop_last();
        lemma_trim_end_take(t, j);
        assert(t.take(j) =~= s.take(j));
    }
}

fn trim_html(s: &Vec<char>) -> (t: Vec<char>)
    ensures
        t@ == trim_html_spaces(s@),
{
    let mut i: usize = 0;
    while i < s.len() && is_html_space_char(s[i])
        invariant
            i <= s.len(),
            forall|j: int| 0 <= j < i ==> is_html_space(#[trigger] s@[j]),
        decreases s.len() - i,
    {
        i = i + 1;
    }
    proof {
        lemma_trim_start_skip(s@, i as int);
    }
    let mut j: usize = s.len();
    while j > i && is_html_space_char(s[j - 1])
        invariant
            i <= j <= s.len(),
            forall|k: int| j <= k < s.len() ==> is_html_space(#[trigger] s@[k]),
        decreases j,
    {
        j = j - 1;
    }
    let ghost rest = s@.skip(i as int);
    proof {
        assert forall|k: int| j - i <= k < rest.len() implies is_html_space(#[trigger] rest[k]) by {
            assert(rest[k] == s@[k + i]);
        }
        lemma_trim_end_take(rest, j - i);
        assert(rest.take(j - i) =~= s@.subrange(i as int, j as int));
    }
    let mut t: Vec<char> = Vec::new();
    let mut k: usize = i;
    while k < j
        invariant
            i <= k <= j <= s.len(),
            t@ =~= s@.subrange(i as int, k as int),
        decreases j - k,
    {
        t.push(s[k]);
        k = k + 1;
    }
    t
}

fn ascii_lower_char(c: char) -> (l: char)
    ensures
        l == ascii_lower(c),
{
    if 'A' <= c && c <= 'Z' {
        ((c as u8) + 32) as char
    } else {
        c
    }
}

fn is_transparent(s: &Vec<char>) -> (b: bool)
    ensures
        b == is_transparent_keyword(s@),
{
    let keyword: [char; 11] = ['t', 'r', 'a', 'n', 's', 'p', 'a', 'r', 'e', 'n', 't'];
    assert(keyword@ =~= transparent_keyword());
    if s.len() != 11 {
        return false;
    }
    let mut i: usize = 0;
    while i < 11
        invariant
            s@.len() == 11,
            keyword@ == transparent_keyword(),
            i <= 11,
            forall|j: int| 0 <= j < i ==> ascii_lower(#[trigger] s@[j]) == transparent_keyword()[j],
        decreases 11 - i,
    {
        if ascii_lower_char(s[i]) != keyword[i] {
            return false;
        }
        i = i + 1;
    }
    true
}

} // verus!

verus! {

proof fn lemma_digit_byte_is_hex(c: char)
    ensures
        hex_value(digit_byte(c) as char) is Some,
{
}

/// Every byte of the sequence is an ASCII hexadecimal digit.
pub open spec fn all_hex_digits(d: Seq<u8>) -> bool {
    forall|i: int| 0 <= i < d.len() ==> hex_value(#[trigger] d[i] as char) is Some
}

fn expand_astral_chars(s: &Vec<char>) -> (out: Vec<char>)
    ensures
        out@ == expand_astral(s@),
{
    let mut out: Vec<char> = Vec::new();
    let mut i: usize = 0;
    while i < s.len()
        invariant
            i <= s.len(),
            out@ == expand_astral(s@.take(i as int)),
        decreases s.len() - i,
    {
        proof {
            assert(s@.take(i + 1).drop_last() =~= s@.take(i as int));
            assert(s@.take(i + 1).last() == s@[i as int]);
        }
        if (s[i] as u32) > 0xffff {
            out.push('0');
            out.push('0');
            assert(out@ =~= expand_astral(s@.take(i as int)) + seq!['0', '0']);
        } else {
            out.push(s[i]);
        }
        i = i + 1;
    }
    assert(s@.take(s.len() as int) =~= s@);
    out
}

/// Steps 1 to 5 of the general form: astral expansion, the 128-character
/// limit, the optional `#`, digit replacement and zero padding.
fn padded_digits(s: &Vec<char>) -> (d: Vec<u8>)
    ensures
        d@ == padded(digit_bytes(strip_hash(first_128(expand_astral(s@))))),
        d@.len() > 0,
        d@.len() % 3 == 0,
        d@.len() <= 130,
        all_hex_digits(d@),
{
    let expanded = expand_astral_chars(s);
    let limit: usize = if expanded.len() > 128 { 128 } else { expanded.len() };
    let start: usize = if limit > 0 && expanded[0] == '#' { 1 } else { 0 };
    let ghost kept = strip_hash(first_128(expand_astral(s@)));
    assert(kept =~= expanded@.subrange(start as int, limit as int));
    let mut d: Vec<u8> = Vec::new();
    let mut i: usize = start;
    while i < limit
        invariant
            start <= i <= limit <= expanded@.len(),
            limit <= 128,
            kept == expanded@.subrange(start as int, limit as int),
            d@ =~= digit_bytes(kept.take(i - start)),
            all_hex_digits(d@),
        decreases limit - i,
    {
        let c = expanded[i];
        let b: u8 = match hex(c) {
            Some(_) => c as u8,
            None => '0' as u8,
        };
        proof {
            lemma_digit_byte_is_hex(c);
        }
        d.push(b);
        i = i + 1;
    }
    assert(kept.take(limit - start) =~= kept);
    let ghost digits = d@;
    while d.len() == 0 || d.len() % 3 != 0
        invariant
            d@.len() <= digits.len() + pad_len(digits.len()),
            digits.len() <= 128,
            d@ =~= digits + Seq::new((d@.len() - digits.len()) as nat, |k: int| '0' as u8),
            d@.len() >= digits.len(),
            all_hex_digits(d@),
            d@.len() < digits.len() + pad_len(digits.len()) ==> (d@.len() == 0 || d@.len() % 3 != 0),
        decreases digits.len() + pad_len(digits.len()) - d@.len(),
    {
        d.push('0' as u8);
    }
    d
}

} // verus!

verus! {

fn copy_range(d: &Vec<u8>, from: usize, to: usize) -> (c: Vec<u8>)
    requires
        from <= to <= d@.len(),
    ensures
        c@ == d@.subrange(from as int, to as int),
{
    let mut c: Vec<u8> = Vec::new();
    let mut i: usize = from;
    while i < to
        invariant
            from <= i <= to <= d@.len(),
            c@ =~= d@.subrange(from as int, i as int),
        decreases to - i,
    {
        c.push(d[i]);
        i = i + 1;
    }
    c
}

/// One channel of `n` digits starting at `from`, keeping at most its last eight.
fn channel(d: &Vec<u8>, from: usize, n: usize) -> (c: Vec<u8>)
    requires
        from + n <= d@.len(),
        d@.len() <= 130,
    ensures
        c@ == last_8(d@.subrange(from as int, from + n)),
{
    if n > 8 {
        let c = copy_range(d, from + n - 8, from + n);
        assert(c@ =~= last_8(d@.subrange(from as int, from + n)));
        c
    } else {
        copy_range(d, from, from + n)
    }
}

fn channel_byte(c: &Vec<u8>, from: usize) -> (v: u8)
    requires
        from < c@.len(),
        all_hex_digits(c@),
    ensures
        v == channel_value(c@.skip(from as int)),
{
    let rest = copy_range(c, from, c.len());
    assert(rest@ =~= c@.skip(from as int));
    match hex_string(rest.as_slice()) {
        Some(v) => v,
        None => {
            assert(hex_value(rest@[0] as char) is Some);
            assert(rest@.len() >= 2 ==> hex_value(rest@[1] as char) is Some);
            0
        },
    }
}

/// The general form of the algorithm: three hexadecimal channels.
#[verifier::spinoff_prover]
#[verifier::rlimit(40)]
fn long_form(s: &Vec<char>) -> (rgb: (u8, u8, u8))
    ensures
        rgb == long_form_color(s@),
{
    let d = padded_digits(s);
    let n = d.len() / 3;
    let red = channel(&d, 0, n);
    let green = channel(&d, n, n);
    let blue = channel(&d, 2 * n, n);
    assert(d@.subrange(2 * n as int, d@.len() as int) =~= d@.subrange(2 * n as int, 2 * n + n));
    let len = red.len();
    assert(all_hex_digits(red@)) by {
        assert forall|i: int| 0 <= i < red@.len() implies hex_value(#[trigger] red@[i] as char) is Some by {
            if n > 8 {
                assert(red@[i] == d@[n - 8 + i]);
            } else {
                assert(red@[i] == d@[i]);
            }
        }
    }
    assert(all_hex_digits(green@)) by {
        assert forall|i: int| 0 <= i < green@.len() implies hex_value(#[trigger] green@[i] as char) is Some by {
            if n > 8 {
                assert(green@[i] == d@[n + n - 8 + i]);
            } else {
                assert(green@[i] == d@[n + i]);
            }
        }
    }
    assert(all_hex_digits(blue@)) by {
        assert forall|i: int| 0 <= i < blue@.len() implies hex_value(#[trigger] blue@[i] as char) is Some by {
            if n > 8 {
                assert(blue@[i] == d@[2 * n + n - 8 + i]);
            } else {
                assert(blue@[i] == d@[2 * n + i]);
            }
        }
    }
    let mut k: usize = 0;
    assert(red@.skip(0) =~= red@);
    assert(green@.skip(0) =~= green@);
    assert(blue@.skip(0) =~= blue@);
    while len - k > 2 && red[k] == '0' as u8 && green[k] == '0' as u8 && blue[k] == '0' as u8
        invariant
            red@.len() == len,
            green@.len() == len,
            blue@.len() == len,
            1 <= len <= 8,
            k <= len,
            k == 0 || k + 2 <= len,
            forall|j: int| 0 <= j < k ==> red@[j] == '0' as u8 && green@[j] == '0' as u8 && blue@[j]
                == '0' as u8,
            strip_common_zeros(red@, green@, blue@) == strip_common_zeros(
                red@.skip(k as int),
                green@.skip(k as int),
                blue@.skip(k as int),
            ),
        decreases len - k,
    {
        proof {
            let (r2, g2, b2) = (red@.skip(k as int), green@.skip(k as int), blue@.skip(k as int));
            assert(r2.drop_first() =~= red@.skip(k + 1));
            assert(g2.drop_first() =~= green@.skip(k + 1));
            assert(b2.drop_first() =~= blue@.skip(k + 1));
        }
        k = k + 1;
    }
    proof {
        let (r2, g2, b2) = (red@.skip(k as int), green@.skip(k as int), blue@.skip(k as int));
        assert(strip_common_zeros(r2, g2, b2) == (r2, g2, b2));
    }
    (channel_byte(&red, k), channel_byte(&green, k), channel_byte(&blue, k))
}

} // verus!

verus! {

fn short_hex(s: &Vec<char>) -> (rgb: Option<(u8, u8, u8)>)
    ensures
        rgb == short_hex_color(s@),
{
    if s.len() != 4 || s[0] != '#' {
        return None;
    }
    match (hex(s[1]), hex(s[2]), hex(s[3])) {
        (Some(red), Some(green), Some(blue)) => Some((red * 17, green * 17, blue * 17)),
        _ => None,
    }
}

/// The color that a trimmed input other than `transparent` denotes, given
/// the named-color table's answer for it: the named color, else the `#rgb`
/// shorthand, else the general three-channel form. This step never fails.
pub fn resolve_legacy_color(trimmed: &Vec<char>, named: Option<(u8, u8, u8)>) -> (color: LegacyColor)
    ensures
        as_rgb(color) == resolved_legacy_color(trimmed@, named),
{
    let (red, green, blue) = match named {
        Some(rgb) => rgb,
        None => match short_hex(trimmed) {
            Some(rgb) => rgb,
            None => long_form(trimmed),
        },
    };
    LegacyColor { red, green, blue }
}

/// Parse a color using HTML's legacy attribute algorithm rather than CSS's
/// color grammar. Only the empty string and `transparent` (after trimming
/// HTML spaces, ASCII case-insensitively) are rejected.
pub fn parse_legacy_color(input: &str) -> (color: Option<LegacyColor>)
    ensures
        color matches Some(c) ==> legacy_color(input@) == Some(as_rgb(c)),
        color is None <==> legacy_color(input@) is None,
        color is None <==> (input@.len() == 0 || is_transparent_keyword(trim_html_spaces(input@))),
{
    let chars = chars_of(input);
    if chars.len() == 0 {
        return None;
    }
    let trimmed = trim_html(&chars);
    if is_transparent(&trimmed) {
        return None;
    }
    let named = named_color(trimmed.as_slice());
    Some(resolve_legacy_color(&trimmed, named))
}


/// A `#` and six hexadecimal digits, in either case.
pub open spec fn is_six_digit_hex(t: Seq<char>) -> bool {
    &&& t.len() == 7
    &&& t[0] == '#'
    &&& forall|i: int| 1 <= i < 7 ==> hex_value(#[trigger] t[i]) is Some
}

/// The byte two hexadecimal digits denote, the first the high one.
pub open spec fn digit_pair_value(high: char, low: char) -> u8 {
    (hex_value(high)->0 * 16 + hex_value(low)->0) as u8
}

/// An input that trims to `#` and six hexadecimal digits, either case,
/// and names no color, is the color whose channels are the values of its
/// three digit pairs.
pub proof fn law_six_digit_hex_reads_its_digit_pairs(input: Seq<char>)
    requires
        is_six_digit_hex(trim_html_spaces(input)),
        css_named_color(trim_html_spaces(input)) is None,
    ensures
        ({
            let t = trim_html_spaces(input);
            legacy_color(input) == Some(
                (digit_pair_value(t[1], t[2]), digit_pair_value(t[3], t[4]), digit_pair_value(t[5], t[6])),
            )
        }),
{
    let t = trim_html_spaces(input);
    if input.len() == 0 {
        assert(trim_html_start(input) == input);
        assert(trim_html_end(input) == input);
    }
    assert(!is_transparent_keyword(t));
    assert(short_hex_color(t) is None);
    assert forall|i: int| 0 <= i < t.len() implies (#[trigger] t[i] as u32) <= 0xffff by {
        if i > 0 {
            assert(hex_value(t[i]) is Some);
        }
    }
    lemma_expand_bmp(t);
    assert(first_128(expand_astral(t)) == t);
    let h = strip_hash(t);
    assert(h =~= t.drop_first());
    let digits = digit_bytes(h);
    assert forall|i: int| 0 <= i < 6 implies (#[trigger] digits[i]) as char == t[i + 1] by {
        assert(hex_value(t[i + 1]) is Some);
        lemma_hex_digit_byte(t[i + 1]);
    }
    let d = padded(digits);
    assert(pad_len(6) == 0);
    assert(d =~= digits);
    let r = d.subrange(0, 2);
    let g = d.subrange(2, 4);
    let b = d.subrange(4, 6);
    assert(last_8(r) == r && last_8(g) == g && last_8(b) == b);
    assert(strip_common_zeros(r, g, b) == (r, g, b));
    assert(r[0] as char == t[1] && r[1] as char == t[2]);
    assert(g[0] as char == t[3] && g[1] as char == t[4]);
    assert(b[0] as char == t[5] && b[1] as char == t[6]);
}

/// The value a character contributes as a digit of the general form: a
/// hexadecimal digit its value, anything else zero.
pub open spec fn digit_value(c: char) -> u8 {
    match hex_value(c) {
        Some(v) => v,
        None => 0,
    }
}

/// An input that trims to `#` and six characters of the Basic Multilingual
/// Plane and names no color reads its channels from the three character
/// pairs, each character counting as its hexadecimal value or else as zero.
pub proof fn law_six_characters_read_as_pairs(input: Seq<char>)
    requires
        trim_html_spaces(input).len() == 7,
        trim_html_spaces(input)[0] == '#',
        forall|i: int| 0 <= i < 7 ==> (#[trigger] trim_html_spaces(input)[i] as u32) <= 0xffff,
        css_named_color(trim_html_spaces(input)) is None,
    ensures
        ({
            let t = trim_html_spaces(input);
            legacy_color(input) == Some(
                (
                    (digit_value(t[1]) * 16 + digit_value(t[2])) as u8,
                    (digit_value(t[3]) * 16 + digit_value(t[4])) as u8,
                    (digit_value(t[5]) * 16 + digit_value(t[6])) as u8,
                ),
            )
        }),
{
    let t = trim_html_spaces(input);
    if input.len() == 0 {
        assert(trim_html_start(input) == input);
        assert(trim_html_end(input) == input);
    }
    assert(!is_transparent_keyword(t));
    assert(short_hex_color(t) is None);
    lemma_expand_bmp(t);
    assert(first_128(expand_astral(t)) == t);
    let h = strip_hash(t);
    assert(h =~= t.drop_first());
    let digits = digit_bytes(h);
    assert forall|i: int| 0 <= i < 6 implies hex_value(#[trigger] digits[i] as char) == Some(
        digit_value(t[i + 1]),
    ) by {
        if hex_value(t[i + 1]) is Some {
            lemma_hex_digit_byte(t[i + 1]);
        }
    }
    let d = padded(digits);
    assert(pad_len(6) == 0);
    assert(d =~= digits);
    let r = d.subrange(0, 2);
    let g = d.subrange(2, 4);
    let b = d.subrange(4, 6);
    assert(last_8(r) == r && last_8(g) == g && last_8(b) == b);
    assert(strip_common_zeros(r, g, b) == (r, g, b));
    assert(r[0] == digits[0] && r[1] == digits[1]);
    assert(g[0] == digits[2] && g[1] == digits[3]);
    assert(b[0] == digits[4] && b[1] == digits[5]);
}

/// `#` and three hexadecimal digits, naming no color, widen each digit by
/// repetition: the channel is the digit's value times seventeen.
pub proof fn law_three_digit_hex_repeats_each_digit(input: Seq<char>)
    requires
        trim_html_spaces(input).len() == 4,
        trim_html_spaces(input)[0] == '#',
        forall|i: int| 1 <= i < 4 ==> hex_value(#[trigger] trim_html_spaces(input)[i]) is Some,
        css_named_color(trim_html_spaces(input)) is None,
    ensures
        ({
            let t = trim_html_spaces(input);
            legacy_color(input) == Some(
                (
                    (hex_value(t[1])->0 * 17) as u8,
                    (hex_value(t[2])->0 * 17) as u8,
                    (hex_value(t[3])->0 * 17) as u8,
                ),
            )
        }),
{
    let t = trim_html_spaces(input);
    if input.len() == 0 {
        assert(trim_html_start(input) == input);
        assert(trim_html_end(input) == input);
    }
    assert(!is_transparent_keyword(t));
    assert(hex_value(t[1]) is Some && hex_value(t[2]) is Some && hex_value(t[3]) is Some);
}

/// A color name wins over every other reading, unless the input is empty
/// or `transparent`.
pub proof fn law_named_colors_win(input: Seq<char>)
    requires
        input.len() > 0,
        !is_transparent_keyword(trim_html_spaces(input)),
        css_named_color(trim_html_spaces(input)) is Some,
    ensures
        legacy_color(input) == css_named_color(trim_html_spaces(input)),
{
}

/// A hexadecimal digit keeps its ASCII byte, which reads back as the digit.
proof fn lemma_hex_digit_byte(c: char)
    requires
        hex_value(c) is Some,
    ensures
        digit_byte(c) as char == c,
{
}

/// Without code points outside the Basic Multilingual Plane, astral
/// expansion changes nothing.
proof fn lemma_expand_bmp(s: Seq<char>)
    requires
        forall|i: int| 0 <= i < s.len() ==> (#[trigger] s[i] as u32) <= 0xffff,
    ensures
        expand_astral(s) == s,
    decreases s.len(),
{
    if s.len() > 0 {
        lemma_expand_bmp(s.drop_last());
        assert(s.drop_last().push(s.last()) =~= s);
    }
}

} // verus!
