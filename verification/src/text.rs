//! Character-level operations on text: trimming, searching, integer reading.

use vstd::prelude::*;
use vstd::string::StrSliceExecFns;

verus! {

broadcast use vstd::string::group_string_axioms;

/// Unicode `White_Space` property, which `char::is_whitespace` and
/// `str::trim` go by.
pub open spec fn is_white_space(c: char) -> bool {
    ||| '\u{9}' <= c <= '\u{d}'
    ||| c == ' '
    ||| c == '\u{85}'
    ||| c == '\u{a0}'
    ||| c == '\u{1680}'
    ||| '\u{2000}' <= c <= '\u{200a}'
    ||| c == '\u{2028}'
    ||| c == '\u{2029}'
    ||| c == '\u{202f}'
    ||| c == '\u{205f}'
    ||| c == '\u{3000}'
}

/// A quotation mark of a JavaScript string literal.
pub open spec fn is_quote(c: char) -> bool {
    c == '"' || c == '\''
}

/// The characters that a trim removes.
pub enum CharClass {
    WhiteSpace,
    Quote,
}

pub open spec fn in_class(c: char, class: CharClass) -> bool {
    match class {
        CharClass::WhiteSpace => is_white_space(c),
        CharClass::Quote => is_quote(c),
    }
}

pub fn char_in_class(c: char, class: &CharClass) -> (r: bool)
    ensures
        r == in_class(c, *class),
{
    match class {
        CharClass::WhiteSpace => ('\u{9}' <= c && c <= '\u{d}') || c == ' ' || c == '\u{85}' || c
            == '\u{a0}' || c == '\u{1680}' || ('\u{2000}' <= c && c <= '\u{200a}') || c
            == '\u{2028}' || c == '\u{2029}' || c == '\u{202f}' || c == '\u{205f}' || c
            == '\u{3000}',
        CharClass::Quote => c == '"' || c == '\'',
    }
}

/// `s` without its leading characters of the class.
pub open spec fn trim_start(s: Seq<char>, class: CharClass) -> Seq<char>
    decreases s.len(),
{
    if s.len() > 0 && in_class(s[0], class) {
        trim_start(s.drop_first(), class)
    } else {
        s
    }
}

/// `s` without its trailing characters of the class.
pub open spec fn trim_end(s: Seq<char>, class: CharClass) -> Seq<char>
    decreases s.len(),
{
    if s.len() > 0 && in_class(s.last(), class) {
        trim_end(s.drop_last(), class)
    } else {
        s
    }
}

/// `s` without its leading and trailing characters of the class: `str::trim`
/// for white space, `str::trim_matches` for quotation marks.
pub open spec fn trim(s: Seq<char>, class: CharClass) -> Seq<char> {
    trim_end(trim_start(s, class), class)
}

/// Text that is empty once trimmed of white space.
pub open spec fn is_blank(s: Seq<char>) -> bool {
    trim(s, CharClass::WhiteSpace).len() == 0
}

/// `pattern` occurs in `s`.
pub open spec fn contains_seq(s: Seq<char>, pattern: Seq<char>) -> bool {
    exists|i: int| 0 <= i && i + pattern.len() <= s.len() && #[trigger] s.subrange(i, i + pattern.len()) == pattern
}

/// The characters of `s`, one by one.
pub fn chars_of(s: &str) -> (v: Vec<char>)
    ensures
        v@ == s@,
{
    let mut v: Vec<char> = Vec::new();
    for c in it: s.chars()
        invariant
            v@ == it.seq().take(it.index() as int),
            it.seq() == s@,
    {
        v.push(c);
    }
    v
}

proof fn lemma_trim_start_skip(s: Seq<char>, i: int, class: CharClass)
    requires
        0 <= i <= s.len(),
        forall|j: int| 0 <= j < i ==> in_class(#[trigger] s[j], class),
    ensures
        trim_start(s, class) == trim_start(s.subrange(i, s.len() as int), class),
    decreases i,
{
    if i > 0 {
        assert(s.drop_first().subrange(i - 1, s.drop_first().len() as int) =~= s.subrange(
            i,
            s.len() as int,
        ));
        lemma_trim_start_skip(s.drop_first(), i - 1, class);
    } else {
        assert(s.subrange(0, s.len() as int) =~= s);
    }
}

proof fn lemma_trim_end_skip(s: Seq<char>, j: int, class: CharClass)
    requires
        0 <= j <= s.len(),
        forall|k: int| j <= k < s.len() ==> in_class(#[trigger] s[k], class),
    ensures
        trim_end(s, class) == trim_end(s.subrange(0, j), class),
    decreases s.len() - j,
{
    if j < s.len() {
        assert(s.drop_last().subrange(0, j) =~= s.subrange(0, j));
        lemma_trim_end_skip(s.drop_last(), j, class);
    } else {
        assert(s.subrange(0, j) =~= s);
    }
}

/// The bounds `(start, end)` of the trimmed part of `s`:
/// `trim(s) == s[start..end]`.
pub fn trim_bounds(s: &Vec<char>, class: &CharClass) -> (r: (usize, usize))
    ensures
        r.0 <= r.1 <= s@.len(),
        trim(s@, *class) == s@.subrange(r.0 as int, r.1 as int),
{
    let mut start: usize = 0;
    while start < s.len() && char_in_class(s[start], class)
        invariant
            start <= s@.len(),
            forall|j: int| 0 <= j < start ==> in_class(#[trigger] s@[j], *class),
        decreases s.len() - start,
    {
        start = start + 1;
    }
    let ghost rest = s@.subrange(start as int, s@.len() as int);
    proof {
        lemma_trim_start_skip(s@, start as int, *class);
        if rest.len() > 0 {
            assert(rest[0] == s@[start as int]);
        }
    }
    let mut end: usize = s.len();
    while end > start && char_in_class(s[end - 1], class)
        invariant
            start <= end <= s@.len(),
            rest == s@.subrange(start as int, s@.len() as int),
            forall|k: int| end <= k < s@.len() ==> in_class(#[trigger] s@[k], *class),
        decreases end,
    {
        end = end - 1;
    }
    proof {
        assert forall|k: int| end - start <= k < rest.len() implies in_class(
            #[trigger] rest[k],
            *class,
        ) by {
            assert(rest[k] == s@[start + k]);
        }
        lemma_trim_end_skip(rest, end - start, *class);
        let kept = rest.subrange(0, end - start);
        assert(kept =~= s@.subrange(start as int, end as int));
        if kept.len() > 0 {
            assert(kept.last() == s@[end - 1]);
        }
    }
    (start, end)
}

/// `s` trimmed of the characters of the class.
pub fn trim_text(s: &str, class: &CharClass) -> (r: String)
    ensures
        r@ == trim(s@, *class),
{
    let chars = chars_of(s);
    let (start, end) = trim_bounds(&chars, class);
    s.substring_char(start, end).to_owned()
}

/// Whether `s` is empty once trimmed of white space.
pub fn text_is_blank(s: &str) -> (r: bool)
    ensures
        r == is_blank(s@),
{
    let chars = chars_of(s);
    let (start, end) = trim_bounds(&chars, &CharClass::WhiteSpace);
    start == end
}

/// Whether `pattern` occurs in `s` at position `i`.
pub fn matches_at(s: &Vec<char>, pattern: &Vec<char>, i: usize) -> (r: bool)
    requires
        i + pattern@.len() <= s@.len(),
    ensures
        r == (s@.subrange(i as int, i + pattern@.len()) == pattern@),
{
    let n = s.len();
    for j in 0..pattern.len()
        invariant
            n == s@.len(),
            i + pattern@.len() <= s@.len(),
            forall|m: int| 0 <= m < j ==> s@[i + m] == pattern@[m],
    {
        if s[i + j] != pattern[j] {
            assert(s@.subrange(i as int, i + pattern@.len())[j as int] != pattern@[j as int]);
            return false;
        }
    }
    assert(s@.subrange(i as int, i + pattern@.len()) =~= pattern@);
    true
}

/// Whether `pattern` occurs in `s`.
pub fn contains_pattern(s: &Vec<char>, pattern: &Vec<char>) -> (r: bool)
    ensures
        r == contains_seq(s@, pattern@),
{
    if pattern.len() > s.len() {
        proof {
            assert forall|i: int|
                0 <= i && i + pattern@.len() <= s@.len() implies #[trigger] s@.subrange(
                i,
                i + pattern@.len(),
            ) != pattern@ by {}
        }
        return false;
    }
    let last = s.len() - pattern.len();
    let mut i: usize = 0;
    loop
        invariant
            i <= last,
            last == s@.len() - pattern@.len(),
            pattern@.len() <= s@.len(),
            forall|k: int|
                0 <= k < i && k + pattern@.len() <= s@.len() ==> #[trigger] s@.subrange(
                    k,
                    k + pattern@.len(),
                ) != pattern@,
        decreases last - i,
    {
        if matches_at(s, pattern, i) {
            return true;
        }
        if i == last {
            return false;
        }
        i = i + 1;
    }
}

/// The value of a string of decimal digits.
pub open spec fn digits_value(d: Seq<char>) -> int
    decreases d.len(),
{
    if d.len() == 0 {
        0
    } else {
        digits_value(d.drop_last()) * 10 + (d.last() as int - '0' as int)
    }
}

pub open spec fn all_digits(d: Seq<char>) -> bool {
    forall|i: int| 0 <= i < d.len() ==> '0' <= #[trigger] d[i] <= '9'
}

/// What `str::parse::<i64>` gives: an optional `+` or `-` sign followed by
/// at least one decimal digit, whose value fits in an `i64`.
pub open spec fn decimal_i64(s: Seq<char>) -> Option<i64> {
    let signed = s.len() > 0 && (s[0] == '-' || s[0] == '+');
    let digits = if signed {
        s.drop_first()
    } else {
        s
    };
    let v = if signed && s[0] == '-' {
        -digits_value(digits)
    } else {
        digits_value(digits)
    };
    if digits.len() > 0 && all_digits(digits) && i64::MIN <= v <= i64::MAX {
        Some(v as i64)
    } else {
        None
    }
}

proof fn lemma_digits_value_grows(d: Seq<char>, k: int)
    requires
        0 <= k <= d.len(),
        all_digits(d),
    ensures
        0 <= digits_value(d.subrange(0, k)) <= digits_value(d),
    decreases d.len(),
{
    if k < d.len() {
        lemma_digits_value_grows(d.drop_last(), k);
        assert(d.drop_last().subrange(0, k) =~= d.subrange(0, k));
    } else {
        assert(d.subrange(0, k) =~= d);
        lemma_digits_nonneg(d);
    }
}

proof fn lemma_digits_nonneg(d: Seq<char>)
    requires
        all_digits(d),
    ensures
        digits_value(d) >= 0,
    decreases d.len(),
{
    if d.len() > 0 {
        lemma_digits_nonneg(d.drop_last());
    }
}

/// Reads a decimal `i64` the way `str::parse::<i64>` does.
pub fn parse_i64(s: &Vec<char>) -> (r: Option<i64>)
    ensures
        r == decimal_i64(s@),
{
    let signed = s.len() > 0 && (s[0] == '-' || s[0] == '+');
    let negative = signed && s[0] == '-';
    let first: usize = if signed {
        1
    } else {
        0
    };
    let ghost digits = s@.subrange(first as int, s@.len() as int);
    assert(signed ==> digits =~= s@.drop_first());
    assert(!signed ==> digits =~= s@);
    if first >= s.len() {
        assert(digits.len() == 0);
        return None;
    }
    let mut value: u64 = 0;
    let mut i: usize = first;
    while i < s.len()
        invariant
            first <= i <= s@.len(),
            digits == s@.subrange(first as int, s@.len() as int),
            signed == (s@.len() > 0 && (s@[0] == '-' || s@[0] == '+')),
            first == (if signed { 1usize } else { 0usize }),
            signed ==> digits == s@.drop_first(),
            !signed ==> digits == s@,
            forall|k: int| first <= k < i ==> '0' <= #[trigger] s@[k] <= '9',
            value == digits_value(s@.subrange(first as int, i as int)),
            value <= 0x8000_0000_0000_0000u64,
        decreases s.len() - i,
    {
        let c = s[i];
        assert(s@.subrange(first as int, i + 1).drop_last() =~= s@.subrange(first as int, i as int));
        if c < '0' || c > '9' {
            proof {
                assert(digits[i - first] == c);
                assert(!all_digits(digits));
                assert(decimal_i64(s@) is None);
            }
            return None;
        }
        let d = (c as u32 - '0' as u32) as u64;
        if value > (0x8000_0000_0000_0000u64 - d) / 10 {
            proof {
                let m: int = 0x8000_0000_0000_0000;
                let vv = value as int;
                let dd = d as int;
                assert(vv * 10 + dd > m) by (nonlinear_arith)
                    requires vv > (m - dd) / 10, 0 <= dd <= 9;
                assert(digits_value(s@.subrange(first as int, i + 1)) == vv * 10 + dd);
                assert forall|k: int| 0 <= k < i + 1 - first implies '0' <= #[trigger] s@.subrange(
                    first as int,
                    i + 1,
                )[k] <= '9' by {
                    assert(s@.subrange(first as int, i + 1)[k] == s@[first + k]);
                }
                if all_digits(digits) {
                    lemma_digits_value_grows(digits, i + 1 - first);
                    assert(digits.subrange(0, i + 1 - first) =~= s@.subrange(first as int, i + 1));
                    assert(digits_value(digits) > m);
                }
                assert(decimal_i64(s@) is None);
            }
            return None;
        }
        value = value * 10 + d;
        i = i + 1;
    }
    assert(s@.subrange(first as int, s@.len() as int) =~= digits);
    assert(all_digits(digits)) by {
        assert forall|k: int| 0 <= k < digits.len() implies '0' <= #[trigger] digits[k] <= '9' by {
            assert(digits[k] == s@[first + k]);
        }
    }
    if negative {
        Some((0 - (value as i128)) as i64)
    } else if value <= 0x7fff_ffff_ffff_ffffu64 {
        Some(value as i64)
    } else {
        None
    }
}

} // verus!
