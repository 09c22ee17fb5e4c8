//! Character-level helpers: CSS collapsible white space, the collapsed
//! widths of a text run, Unicode white-space trimming and decimal parsing.

use vstd::prelude::*;
use crate::legacy_color::is_html_space;

verus! {

/// The characters of a string, in order.
pub fn chars_of(s: &str) -> (v: Vec<char>)
    ensures
        v@ == s@,
{
    let mut v: Vec<char> = Vec::new();
    for c in it: s.chars()
        invariant
            v@ == it.seq().take(it.index() as int),
    {
        v.push(c);
    }
    v
}

/// CSS collapsible white space is exactly space, tab, line feed, carriage
/// return and form feed; no-break space and the other Unicode spaces are
/// content.
pub fn is_collapsible_whitespace(text: &str) -> (collapsible: bool)
    ensures
        collapsible == forall|i: int| 0 <= i < text@.len() ==> is_html_space(#[trigger] text@[i]),
{
    let chars = chars_of(text);
    let mut i: usize = 0;
    while i < chars.len()
        invariant
            chars@ == text@,
            i <= chars@.len(),
            forall|j: int| 0 <= j < i ==> is_html_space(#[trigger] chars@[j]),
        decreases chars@.len() - i,
    {
        let c = chars[i];
        if !(c == ' ' || c == '\t' || c == '\n' || c == '\r' || c == '\u{c}') {
            return false;
        }
        i = i + 1;
    }
    true
}

/// The number of characters that are not collapsible white space.
pub open spec fn count_letters(s: Seq<char>) -> nat
    decreases s.len(),
{
    if s.len() == 0 {
        0
    } else {
        count_letters(s.drop_last()) + if is_html_space(s.last()) {
            0nat
        } else {
            1nat
        }
    }
}

/// Whether a word (a maximal run of non-white-space) starts at `i`.
pub open spec fn starts_word(s: Seq<char>, i: int) -> bool {
    !is_html_space(s[i]) && (i == 0 || is_html_space(s[i - 1]))
}

/// The number of words.
pub open spec fn count_words(s: Seq<char>) -> nat
    decreases s.len(),
{
    if s.len() == 0 {
        0
    } else {
        count_words(s.drop_last()) + if starts_word(s, s.len() - 1) {
            1nat
        } else {
            0nat
        }
    }
}

/// The length of the text once white space collapses: its letters plus one
/// space between each pair of adjacent words.
pub open spec fn collapsed_width(s: Seq<char>) -> nat {
    count_letters(s) + if count_words(s) > 0 {
        (count_words(s) - 1) as nat
    } else {
        0nat
    }
}

/// The length, in characters, of a text run after CSS white-space
/// collapsing.
pub fn collapsed_text_width(text: &str) -> (width: usize)
    ensures
        width == collapsed_width(text@),
{
    let chars = chars_of(text);
    let mut width: usize = 0;
    let mut pending_space = false;
    let mut k: usize = 0;
    while k < chars.len()
        invariant
            chars@ == text@,
            k <= chars@.len(),
            width == collapsed_width(chars@.take(k as int)),
            width <= k,
            pending_space ==> width + 1 <= k,
            (width == 0) == (count_words(chars@.take(k as int)) == 0),
            pending_space == (count_words(chars@.take(k as int)) > 0 && is_html_space(chars@[k - 1])),
        decreases chars@.len() - k,
    {
        let character = chars[k];
        let ghost prefix = chars@.take(k + 1);
        proof {
            assert(prefix.drop_last() =~= chars@.take(k as int));
            assert(prefix.last() == character);
            if k > 0 {
                assert(prefix[k - 1] == chars@[k - 1]);
            }
        }
        if character == '\u{0009}' || character == '\u{000A}' || character == '\u{000C}'
            || character == '\u{000D}' || character == ' ' {
            pending_space = width != 0;
        } else {
            if pending_space {
                width = width + 1;
                pending_space = false;
            }
            width = width + 1;
        }
        k = k + 1;
    }
    assert(chars@.take(chars@.len() as int) =~= chars@);
    width
}

/// The length of the trailing word of `s` (0 when `s` ends in white space).
pub open spec fn trailing_word(s: Seq<char>) -> nat
    decreases s.len(),
{
    if s.len() == 0 || is_html_space(s.last()) {
        0
    } else {
        trailing_word(s.drop_last()) + 1
    }
}

/// No collapsible white space in `s[i..j]`.
pub open spec fn is_word_run(s: Seq<char>, i: int, j: int) -> bool {
    forall|k: int| i <= k < j ==> !is_html_space(#[trigger] s[k])
}

/// The length of the longest word: the narrowest a text run can be made
/// by breaking at white space.
pub fn collapsed_word_width(text: &str) -> (width: usize)
    ensures
        forall|i: int, j: int| 0 <= i <= j <= text@.len() && is_word_run(text@, i, j) ==> j - i <= width,
        width == 0 || exists|i: int, j: int|
            0 <= i <= j <= text@.len() && j - i == width && #[trigger] is_word_run(text@, i, j),
{
    let chars = chars_of(text);
    let mut maximum: usize = 0;
    let mut current: usize = 0;
    let mut k: usize = 0;
    while k < chars.len()
        invariant
            chars@ == text@,
            k <= chars@.len(),
            current == trailing_word(chars@.take(k as int)),
            current <= k,
            maximum <= k,
            is_word_run(chars@, k - current, k as int),
            forall|i: int| 0 <= i <= k && is_word_run(chars@, i, k as int) ==> k - i <= current,
            forall|i: int, j: int|
                0 <= i <= j <= k && is_word_run(chars@, i, j) ==> j - i <= (if maximum > current {
                    maximum
                } else {
                    current
                }),
            maximum == 0 || exists|i: int, j: int|
                0 <= i <= j <= k && j - i == maximum && #[trigger] is_word_run(chars@, i, j),
        decreases chars@.len() - k,
    {
        let character = chars[k];
        let ghost prefix = chars@.take(k + 1);
        proof {
            assert(prefix.drop_last() =~= chars@.take(k as int));
            assert(prefix.last() == character);
        }
        if character == '\u{0009}' || character == '\u{000A}' || character == '\u{000C}'
            || character == '\u{000D}' || character == ' ' {
            proof {
                let old_max = maximum as int;
                let old_cur = current as int;
                assert forall|i: int, j: int|
                    0 <= i <= j <= k + 1 && is_word_run(chars@, i, j) implies j - i <= (if old_max > old_cur {
                        old_max
                    } else {
                        old_cur
                    }) by {
                    if j == k + 1 && i < j {
                        assert(!is_html_space(chars@[k as int]));
                    }
                }
                if old_cur > old_max {
                    assert(is_word_run(chars@, k - old_cur, k as int));
                }
                assert forall|i: int| 0 <= i <= k + 1 && #[trigger] is_word_run(chars@, i, k + 1) implies k + 1 - i <= 0 by {
                    if i < k + 1 {
                        assert(!is_html_space(chars@[k as int]));
                    }
                }
            }
            if current > maximum {
                maximum = current;
            }
            current = 0;
        } else {
            proof {
                let old_max = maximum as int;
                let old_cur = current as int;
                assert forall|i: int| 0 <= i <= k + 1 && #[trigger] is_word_run(chars@, i, k + 1) implies k + 1 - i <= old_cur + 1 by {
                    if i <= k {
                        assert(is_word_run(chars@, i, k as int));
                    }
                }
                assert forall|i: int, j: int|
                    0 <= i <= j <= k + 1 && is_word_run(chars@, i, j) implies j - i <= (if old_max > old_cur + 1 {
                        old_max
                    } else {
                        old_cur + 1
                    }) by {
                    if j == k + 1 && i <= k {
                        assert(is_word_run(chars@, i, k as int));
                    }
                }
                assert(is_word_run(chars@, k + 1 - (old_cur + 1), k + 1));
                if old_max > 0 {
                    let (wi, wj) = choose|i: int, j: int|
                        0 <= i <= j <= k && j - i == old_max && #[trigger] is_word_run(chars@, i, j);
                    assert(0 <= wi <= wj <= k + 1 && wj - wi == old_max && is_word_run(chars@, wi, wj));
                }
            }
            current = current + 1;
        }
        k = k + 1;
    }
    let width = if maximum > current { maximum } else { current };
    proof {
        if width == current && current > 0 {
            assert(is_word_run(text@, chars@.len() - current, chars@.len() as int));
        }
    }
    width
}

} // verus!

verus! {

/// Unicode `White_Space`, as `char::is_whitespace` documents it.
pub open spec fn is_unicode_white_space(c: char) -> bool {
    ('\u{9}' <= c && c <= '\u{d}') || c == ' ' || c == '\u{85}' || c == '\u{a0}' || c == '\u{1680}'
        || ('\u{2000}' <= c && c <= '\u{200a}') || c == '\u{2028}' || c == '\u{2029}' || c
        == '\u{202f}' || c == '\u{205f}' || c == '\u{3000}'
}

fn is_unicode_white_space_char(c: char) -> (white: bool)
    ensures
        white == is_unicode_white_space(c),
{
    ('\u{9}' <= c && c <= '\u{d}') || c == ' ' || c == '\u{85}' || c == '\u{a0}' || c == '\u{1680}'
        || ('\u{2000}' <= c && c <= '\u{200a}') || c == '\u{2028}' || c == '\u{2029}' || c
        == '\u{202f}' || c == '\u{205f}' || c == '\u{3000}'
}

/// The characters of `s` between its first and last non-white-space
/// characters (`str::trim`); empty when there are none.
pub open spec fn is_unicode_trim(s: Seq<char>, start: int, end: int) -> bool {
    &&& 0 <= start <= end <= s.len()
    &&& forall|i: int| 0 <= i < start ==> is_unicode_white_space(#[trigger] s[i])
    &&& forall|i: int| end <= i < s.len() ==> is_unicode_white_space(#[trigger] s[i])
    &&& start < end ==> !is_unicode_white_space(s[start]) && !is_unicode_white_space(s[end - 1])
}

pub open spec fn unicode_trim(s: Seq<char>) -> Seq<char> {
    let (start, end) = choose|start: int, end: int| is_unicode_trim(s, start, end);
    s.subrange(start, end)
}

pub open spec fn is_ascii_digit(c: char) -> bool {
    '0' <= c && c <= '9'
}

/// The value of a string of decimal digits.
pub open spec fn decimal_value(s: Seq<char>) -> nat
    decreases s.len(),
{
    if s.len() == 0 {
        0
    } else {
        decimal_value(s.drop_last()) * 10 + (s.last() as u32 - '0' as u32) as nat
    }
}

/// `usize`'s `FromStr`: an optional `+` and at least one decimal digit,
/// whose value fits.
pub open spec fn unsigned_digits(s: Seq<char>) -> Seq<char> {
    if s.len() > 0 && s[0] == '+' {
        s.drop_first()
    } else {
        s
    }
}

pub open spec fn all_ascii_digits(s: Seq<char>) -> bool {
    forall|i: int| 0 <= i < s.len() ==> is_ascii_digit(#[trigger] s[i])
}

pub open spec fn parsed_usize(s: Seq<char>) -> Option<usize> {
    let digits = unsigned_digits(s);
    if digits.len() > 0 && all_ascii_digits(digits)
        && decimal_value(digits) <= usize::MAX {
        Some(decimal_value(digits) as usize)
    } else {
        None
    }
}

proof fn lemma_trim_unique(s: Seq<char>, start: int, end: int)
    requires
        is_unicode_trim(s, start, end),
    ensures
        unicode_trim(s) == s.subrange(start, end),
{
    let (a, b) = choose|a: int, b: int| is_unicode_trim(s, a, b);
    if start < end {
        assert(a == start && b == end) by {
            if a < start {
                assert(is_unicode_white_space(s[a]));
            }
            if a > start {
                assert(is_unicode_white_space(s[start]));
            }
            if b > end {
                assert(is_unicode_white_space(s[b - 1]));
            }
            if b < end {
                assert(is_unicode_white_space(s[end - 1]));
            }
        }
    } else {
        if a < b {
            assert(!is_unicode_white_space(s[a]));
            if a < start {
            } else {
                assert(is_unicode_white_space(s[a]));
            }
        }
        assert(s.subrange(a, b) =~= s.subrange(start, end));
    }
}

/// `str::trim`: the characters without leading and trailing Unicode white
/// space.
pub fn trim_unicode(s: &Vec<char>) -> (t: Vec<char>)
    ensures
        t@ == unicode_trim(s@),
{
    let mut start: usize = 0;
    while start < s.len() && is_unicode_white_space_char(s[start])
        invariant
            start <= s@.len(),
            forall|i: int| 0 <= i < start ==> is_unicode_white_space(#[trigger] s@[i]),
        decreases s@.len() - start,
    {
        start = start + 1;
    }
    let mut end: usize = s.len();
    while end > start && is_unicode_white_space_char(s[end - 1])
        invariant
            start <= end <= s@.len(),
            forall|i: int| 0 <= i < start ==> is_unicode_white_space(#[trigger] s@[i]),
            forall|i: int| end <= i < s@.len() ==> is_unicode_white_space(#[trigger] s@[i]),
            start < s@.len() ==> !is_unicode_white_space(s@[start as int]),
        decreases end,
    {
        end = end - 1;
    }
    proof {
        lemma_trim_unique(s@, start as int, end as int);
    }
    let mut t: Vec<char> = Vec::new();
    let mut k: usize = start;
    while k < end
        invariant
            start <= k <= end <= s@.len(),
            t@ =~= s@.subrange(start as int, k as int),
        decreases end - k,
    {
        t.push(s[k]);
        k = k + 1;
    }
    t
}

/// `str::parse::<usize>`: an optional `+` followed by decimal digits whose
/// value fits in `usize`.
pub fn parse_usize(s: &Vec<char>) -> (value: Option<usize>)
    ensures
        value == parsed_usize(s@),
{
    let start: usize = if s.len() > 0 && s[0] == '+' { 1 } else { 0 };
    let ghost digits = unsigned_digits(s@);
    assert(digits =~= s@.skip(start as int));
    if start == s.len() {
        return None;
    }
    let mut value: usize = 0;
    let mut i: usize = start;
    while i < s.len()
        invariant
            start <= i <= s@.len(),
            digits == s@.skip(start as int),
            digits == unsigned_digits(s@),
            forall|j: int| start <= j < i ==> is_ascii_digit(#[trigger] s@[j]),
            value == decimal_value(digits.take(i - start)),
        decreases s@.len() - i,
    {
        let c = s[i];
        proof {
            assert(digits.take(i - start + 1).drop_last() =~= digits.take(i - start));
            assert(digits.take(i - start + 1).last() == c);
        }
        if !('0' <= c && c <= '9') {
            proof {
                assert(digits[i - start] == c);
                assert(!all_ascii_digits(digits));
            }
            return None;
        }
        let d = (c as u32 - '0' as u32) as usize;
        let next = match value.checked_mul(10) {
            Some(v) => v.checked_add(d),
            None => None,
        };
        match next {
            Some(v) => value = v,
            None => {
                proof {
                    assert(decimal_value(digits.take(i - start + 1)) == value * 10 + d);
                    assert(value * 10 + d > usize::MAX);
                    if all_ascii_digits(digits) {
                        lemma_decimal_prefix_bound(digits, i - start + 1);
                    }
                }
                return None;
            },
        }
        i = i + 1;
    }
    assert(digits.take(s@.len() - start) =~= digits);
    Some(value)
}

/// The value of a digit string is at least the value of any prefix.
proof fn lemma_decimal_prefix_bound(s: Seq<char>, n: int)
    requires
        0 <= n <= s.len(),
        all_ascii_digits(s),
    ensures
        decimal_value(s.take(n)) <= decimal_value(s),
    decreases s.len() - n,
{
    if n < s.len() {
        lemma_decimal_prefix_bound(s, n + 1);
        assert(s.take(n + 1).drop_last() =~= s.take(n));
    } else {
        assert(s.take(n) =~= s);
    }
}

} // verus!

verus! {

/// ASCII case-insensitive equality (`str::eq_ignore_ascii_case`).
pub open spec fn eq_ascii_case_insensitive(a: Seq<char>, b: Seq<char>) -> bool {
    &&& a.len() == b.len()
    &&& forall|i: int| 0 <= i < a.len() ==> crate::legacy_color::ascii_lower(#[trigger] a[i])
        == crate::legacy_color::ascii_lower(b[i])
}

fn ascii_lower_of(c: char) -> (l: char)
    ensures
        l == crate::legacy_color::ascii_lower(c),
{
    if 'A' <= c && c <= 'Z' {
        ((c as u8) + 32) as char
    } else {
        c
    }
}

pub fn eq_ignore_ascii_case(a: &str, b: &str) -> (equal: bool)
    ensures
        equal == eq_ascii_case_insensitive(a@, b@),
{
    let x = chars_of(a);
    let y = chars_of(b);
    if x.len() != y.len() {
        return false;
    }
    let mut i: usize = 0;
    while i < x.len()
        invariant
            x@ == a@,
            y@ == b@,
            x@.len() == y@.len(),
            i <= x@.len(),
            forall|j: int| 0 <= j < i ==> crate::legacy_color::ascii_lower(#[trigger] x@[j])
                == crate::legacy_color::ascii_lower(y@[j]),
        decreases x@.len() - i,
    {
        if ascii_lower_of(x[i]) != ascii_lower_of(y[i]) {
            return false;
        }
        i = i + 1;
    }
    true
}

} // verus!

verus! {

/// Exact string equality.
pub fn str_equal(a: &str, b: &str) -> (equal: bool)
    ensures
        equal == (a@ == b@),
{
    let x = chars_of(a);
    let y = chars_of(b);
    if x.len() != y.len() {
        return false;
    }
    let mut i: usize = 0;
    while i < x.len()
        invariant
            x@ == a@,
            y@ == b@,
            x@.len() == y@.len(),
            i <= x@.len(),
            forall|j: int| 0 <= j < i ==> x@[j] == y@[j],
        decreases x@.len() - i,
    {
        if x[i] != y[i] {
            return false;
        }
        i = i + 1;
    }
    assert(x@ =~= y@);
    true
}

} // verus!
