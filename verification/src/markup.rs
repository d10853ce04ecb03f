//! Reading markup as text: what decides about a page before there is a tree to
//! ask, and what may not pass from a frame into it.
use vstd::arithmetic::div_mod::{lemma_div_denominator, lemma_fundamental_div_mod};
use vstd::arithmetic::power2::{
    lemma2_to64, lemma2_to64_rest, lemma_pow2_strictly_increases, lemma_pow2_unfold, pow2,
};
use vstd::prelude::*;

use crate::opening::PageOptions;
use crate::address::decimal_value;
use crate::fetch::{find_header, header_value, FetchOutcome};
use crate::policy::{is_loopback, is_loopback_host};
use crate::text::{
    char_is_digit, char_is_space, chars_of, contains, cut, decimal, find_at, find_from, holds,
    is_digit, is_space, lemma_find_from, lower, lower_chars, lowered, occurs_at, same, slice_chars, slice_text, starts_with, string_view, text_of,
    texts, trim, trim_bounds, trimmed, trimmed_start,
};
use crate::url::{url_joined, Url, UrlView};

verus! {

// ------------------------------------------------------ script by other roads

/// White space as ASCII has it.
pub open spec fn is_ascii_space(c: char) -> bool {
    c == ' ' || c == '\t' || c == '\n' || c == '\r' || c == '\u{c}'
}

pub open spec fn is_control(c: char) -> bool {
    (c as u32) < 0x20 || 0x7f <= (c as u32) <= 0x9f
}

fn char_is_ascii_space(c: char) -> (r: bool)
    ensures
        r == is_ascii_space(c),
{
    c == ' ' || c == '\t' || c == '\n' || c == '\r' || c == '\u{c}'
}

fn char_is_control(c: char) -> (r: bool)
    ensures
        r == is_control(c),
{
    let n: u32 = c as u32;
    n < 0x20 || (0x7f <= n && n <= 0x9f)
}

/// A URL without the characters that are stripped before it is resolved.
pub open spec fn cleaned(value: Seq<char>) -> Seq<char> {
    value.filter(|c: char| !is_ascii_space(c) && !is_control(c))
}

/// The URL names the `javascript:` scheme, however it is spelled.
pub open spec fn names_javascript(value: Seq<char>) -> bool {
    starts_with(lowered(cleaned(value)), "javascript:"@)
}

/// Whether a URL attribute names the `javascript:` scheme.
///
/// The comparison is on the value with ASCII whitespace and control characters
/// removed, because those are stripped from a URL before it is resolved:
/// `java\tscript:alert(1)` is a `javascript:` URL.
pub fn is_javascript_url(value: &str) -> (r: bool)
    ensures
        r == names_javascript(value@),
{
    let v = chars_of(value);
    let ghost keep = |c: char| !is_ascii_space(c) && !is_control(c);
    let mut kept: Vec<char> = Vec::new();
    let mut i: usize = 0;
    proof {
        reveal(Seq::filter);
        assert(kept@ =~= v@.take(0).filter(keep));
    }
    while i < v.len()
        invariant
            i <= v.len(),
            v@ == value@,
            keep == (|c: char| !is_ascii_space(c) && !is_control(c)),
            kept@ == v@.take(i as int).filter(keep),
        decreases v.len() - i,
    {
        let c = v[i];
        if !char_is_ascii_space(c) && !char_is_control(c) {
            kept.push(c);
        }
        i += 1;
        proof {
            reveal(Seq::filter);
            assert(v@.take(i as int).drop_last() =~= v@.take(i - 1));
            assert(v@.take(i as int).last() == c);
        }
    }
    assert(v@.take(i as int) =~= v@);
    let low = lower_chars(&kept);
    let mark = chars_of("javascript:");
    crate::text::stands_at(&low, &mark, 0)
}

/// The attribute of a frame's content is script: an event handler, or a link
/// that runs some.
pub open spec fn is_script_attribute(name: Seq<char>, value: Seq<char>) -> bool {
    let n = lowered(name);
    ||| n.len() > 2 && n[0] == 'o' && n[1] == 'n'
    ||| (n == "href"@ || n == "src"@ || n == "action"@ || n == "formaction"@ || n == "data"@ || n
        == "xlink:href"@) && names_javascript(value)
}

/// Whether this attribute of a flattened frame's content is script.
///
/// Foreign content keeps the case the document wrote, and a boundary that a
/// page can step around by capitalising an attribute is not one.
pub fn defuse_attribute(name: &str, value: &str) -> (r: bool)
    ensures
        r == is_script_attribute(name@, value@),
{
    let v = lower_chars(&chars_of(name));
    if v.len() > 2 && v[0] == 'o' && v[1] == 'n' {
        return true;
    }
    let n = text_of(&v);
    (same(&n, "href") || same(&n, "src") || same(&n, "action") || same(&n, "formaction") || same(
        &n,
        "data",
    ) || same(&n, "xlink:href")) && is_javascript_url(value)
}

// ------------------------------------------------------------- attributes

/// Up to the first character of its kind, or all of it.
pub open spec fn until_char(s: Seq<char>, stop: spec_fn(char) -> bool) -> Seq<char>
    decreases s.len(),
{
    if s.len() == 0 || stop(s[0]) {
        Seq::empty()
    } else {
        seq![s[0]] + until_char(s.drop_first(), stop)
    }
}

/// The value that stands behind an equals sign: in quotes, or up to white
/// space or the end of the tag.
pub open spec fn value_behind(after: Seq<char>) -> Seq<char> {
    if after.len() > 0 && (after[0] == '"' || after[0] == '\'') {
        until_char(after.drop_first(), |c: char| c == after[0])
    } else {
        until_char(after, |c: char| is_ascii_space(c) || c == '>')
    }
}

/// The value of an attribute, looked for from a place in a tag on. A whole
/// name counts, not the tail of another one.
pub open spec fn attribute_from(tag: Seq<char>, name: Seq<char>, from: int) -> Option<Seq<char>>
    decreases tag.len() - from,
{
    match find_from(lowered(tag), name, from) {
        None => None,
        Some(at) => if at < from || name.len() == 0 || at + name.len() > tag.len() {
            None
        } else {
            let next = at + name.len();
            let after = trimmed_start(tag.skip(next));
            if at > 0 && !is_ascii_space(lowered(tag)[at - 1]) {
                attribute_from(tag, name, next)
            } else if after.len() == 0 || after[0] != '=' {
                attribute_from(tag, name, next)
            } else {
                Some(value_behind(trimmed_start(after.drop_first())))
            }
        },
    }
}

fn skip_space(v: &Vec<char>, from: usize) -> (r: usize)
    requires
        from <= v.len(),
    ensures
        from <= r <= v@.len(),
        v@.skip(r as int) == trimmed_start(v@.skip(from as int)),
{
    let mut a: usize = from;
    while a < v.len() && char_is_space(v[a])
        invariant
            from <= a <= v.len(),
            trimmed_start(v@.skip(from as int)) == trimmed_start(v@.skip(a as int)),
        decreases v.len() - a,
    {
        assert(v@.skip(a as int)[0] == v@[a as int]);
        assert(v@.skip(a as int).drop_first() =~= v@.skip(a + 1));
        a += 1;
    }
    proof {
        if a < v.len() {
            assert(v@.skip(a as int)[0] == v@[a as int]);
        }
    }
    a
}

/// Up to the quote, from a place on.
fn until_quote(v: &Vec<char>, from: usize, quote: char) -> (r: String)
    requires
        from <= v.len(),
    ensures
        r@ == until_char(v@.skip(from as int), |c: char| c == quote),
{
    let ghost stop = |c: char| c == quote;
    let mut out = String::new();
    let mut i: usize = from;
    assert(Seq::<char>::empty() + until_char(v@.skip(from as int), stop) =~= until_char(
        v@.skip(from as int),
        stop,
    ));
    while i < v.len() && v[i] != quote
        invariant
            from <= i <= v.len(),
            stop == (|c: char| c == quote),
            until_char(v@.skip(from as int), stop) == out@ + until_char(v@.skip(i as int), stop),
        decreases v.len() - i,
    {
        let ghost before = out@;
        let ghost rest = until_char(v@.skip(i + 1), stop);
        assert(v@.skip(i as int)[0] == v@[i as int]);
        assert(v@.skip(i as int).drop_first() =~= v@.skip(i + 1));
        out.push(v[i]);
        assert(before + (seq![v@[i as int]] + rest) =~= out@ + rest);
        i += 1;
    }
    proof {
        if i < v.len() {
            assert(v@.skip(i as int)[0] == v@[i as int]);
        }
        assert(until_char(v@.skip(i as int), stop) =~= Seq::empty());
    }
    out
}

/// Up to white space or the end of the tag, from a place on.
fn until_break(v: &Vec<char>, from: usize) -> (r: String)
    requires
        from <= v.len(),
    ensures
        r@ == until_char(v@.skip(from as int), |c: char| is_ascii_space(c) || c == '>'),
{
    let ghost stop = |c: char| is_ascii_space(c) || c == '>';
    let mut out = String::new();
    let mut i: usize = from;
    assert(Seq::<char>::empty() + until_char(v@.skip(from as int), stop) =~= until_char(
        v@.skip(from as int),
        stop,
    ));
    while i < v.len() && !(char_is_ascii_space(v[i]) || v[i] == '>')
        invariant
            from <= i <= v.len(),
            stop == (|c: char| is_ascii_space(c) || c == '>'),
            until_char(v@.skip(from as int), stop) == out@ + until_char(v@.skip(i as int), stop),
        decreases v.len() - i,
    {
        let ghost before = out@;
        let ghost rest = until_char(v@.skip(i + 1), stop);
        assert(v@.skip(i as int)[0] == v@[i as int]);
        assert(v@.skip(i as int).drop_first() =~= v@.skip(i + 1));
        out.push(v[i]);
        assert(before + (seq![v@[i as int]] + rest) =~= out@ + rest);
        i += 1;
    }
    proof {
        if i < v.len() {
            assert(v@.skip(i as int)[0] == v@[i as int]);
        }
        assert(until_char(v@.skip(i as int), stop) =~= Seq::empty());
    }
    out
}

/// One attribute out of a raw tag, single or double quoted or bare.
pub fn attribute_value(tag: &str, name: &str) -> (r: Option<String>)
    requires
        name@.len() > 0,
    ensures
        string_view(r) == attribute_from(tag@, name@, 0),
{
    let v = chars_of(tag);
    let low = lower_chars(&v);
    let mark = chars_of(name);
    let mut from: usize = 0;
    loop
        invariant
            v@ == tag@,
            low@ == lowered(tag@),
            mark@ == name@,
            name@.len() > 0,
            from <= v.len(),
            attribute_from(tag@, name@, 0) == attribute_from(tag@, name@, from as int),
        decreases v.len() - from,
    {
        let n = v.len();
        match find_at(&low, &mark, from) {
            None => {
                return None;
            },
            Some(at) => {
                let next = at + mark.len();
                let whole = at == 0 || char_is_ascii_space(low[at - 1]);
                let eq = skip_space(&v, next);
                let ghost after = trimmed_start(v@.skip(next as int));
                assert(after =~= v@.skip(eq as int));
                if whole && eq < n && v[eq] == '=' {
                    assert(after[0] == v@[eq as int]);
                    assert(after.drop_first() =~= v@.skip(eq + 1));
                    let start = skip_space(&v, eq + 1);
                    let ghost value = trimmed_start(after.drop_first());
                    assert(value =~= v@.skip(start as int));
                    if start < n && (v[start] == '"' || v[start] == '\'') {
                        assert(value[0] == v@[start as int]);
                        assert(value.drop_first() =~= v@.skip(start + 1));
                        let quote = v[start];
                        let r = until_quote(&v, start + 1, quote);
                        proof {
                            let a = |c: char| c == quote;
                            let b = |c: char| c == value[0];
                            assert(a =~= b);
                        }
                        return Some(r);
                    }
                    if start < n {
                        assert(value[0] == v@[start as int]);
                    }
                    return Some(until_break(&v, start));
                }
                if eq < n {
                    assert(after[0] == v@[eq as int]);
                }
                from = next;
            },
        }
    }
}

// ----------------------------------------------------------------- numerals

pub open spec fn all_digits(s: Seq<char>) -> bool {
    forall|i: int| 0 <= i < s.len() ==> is_digit(#[trigger] s[i])
}

/// Exponents further out than this are as good as this one.
pub const FAR_EXPONENT: i128 = 1_000_000_000_000_000_000_000_000_000_000;

/// The exponent of a numeral, no further out than matters.
pub open spec fn exponent(s: Seq<char>) -> Option<int> {
    let signed = s.len() > 0 && (s[0] == '+' || s[0] == '-');
    let digits = if signed {
        s.drop_first()
    } else {
        s
    };
    let size = if decimal_value(digits) > FAR_EXPONENT {
        FAR_EXPONENT as int
    } else {
        decimal_value(digits) as int
    };
    if digits.len() == 0 || !all_digits(digits) {
        None
    } else if s[0] == '-' {
        Some(-size)
    } else {
        Some(size)
    }
}

/// The digits of a decimal numeral, and how many of them stand before the
/// point once the exponent has moved it.
pub open spec fn numeral(s: Seq<char>) -> Option<(Seq<char>, int)> {
    let e = find_from(lowered(s), "e"@, 0);
    let mantissa = match e {
        Some(i) => s.take(i),
        None => s,
    };
    let moved = match e {
        Some(i) => exponent(s.skip(i + 1)),
        None => Some(0int),
    };
    let dot = find_from(mantissa, "."@, 0);
    let before = match dot {
        Some(i) => mantissa.take(i),
        None => mantissa,
    };
    let after = match dot {
        Some(i) => mantissa.skip(i + 1),
        None => Seq::empty(),
    };
    if moved is Some && all_digits(before) && all_digits(after) && before.len() + after.len() > 0 {
        Some((before + after, before.len() + moved->Some_0))
    } else {
        None
    }
}

/// So many digits before the point, with zeros where there are no more.
pub open spec fn whole_part(digits: Seq<char>, places: int) -> Seq<char> {
    Seq::new(
        if places > 0 {
            places as nat
        } else {
            0
        },
        |i: int|
            if i < digits.len() {
                digits[i]
            } else {
                '0'
            },
    )
}

pub open spec fn ten_to(n: nat) -> nat
    decreases n,
{
    if n == 0 {
        1
    } else {
        10 * ten_to((n - 1) as nat)
    }
}

/// What stands behind the point: so many of so many parts of one.
pub open spec fn fraction_part(digits: Seq<char>, places: int) -> (nat, nat) {
    let rest = if places <= 0 {
        digits
    } else if places < digits.len() {
        digits.skip(places)
    } else {
        Seq::empty()
    };
    (
        decimal_value(rest),
        ten_to(
            if places < digits.len() {
                (digits.len() - places) as nat
            } else {
                0
            },
        ),
    )
}

/// From here on a number of double precision has no digits behind the point
/// to spare: it holds this many whole numbers one by one, and half as many
/// with halves between them.
pub const WHOLE_DOUBLES: u64 = 0x20_0000_0000_0000;

pub const HALVED_DOUBLES: u64 = 0x10_0000_0000_0000;

/// How far apart the numbers of double precision stand around a large whole
/// one.
pub open spec fn spacing(w: nat) -> nat
    decreases w,
{
    if w < WHOLE_DOUBLES {
        1
    } else {
        2 * spacing(w / 2)
    }
}

/// How many binary places behind the point decide how a number is rounded that
/// has this whole part.
pub open spec fn binary_places(w: nat) -> nat
    decreases WHOLE_DOUBLES - w,
{
    if w == 0 {
        54
    } else if w >= HALVED_DOUBLES {
        1
    } else {
        1 + binary_places(2 * w)
    }
}

/// The whole part of the number of double precision that is nearest to `w` and
/// `f` parts of `unit`; of two as near, the even one.
pub open spec fn nearest(w: nat, f: nat, unit: nat) -> nat {
    if w >= WHOLE_DOUBLES {
        let step = spacing(w);
        let low = w % step;
        if 2 * low > step || (2 * low == step && (f > 0 || (w / step) % 2 == 1)) {
            (w / step + 1) * step
        } else {
            (w / step) * step
        }
    } else {
        let short = (unit - f) * pow2(binary_places(w));
        if short < unit || (short == unit && (w < HALVED_DOUBLES || w % 2 == 1)) {
            w + 1
        } else {
            w
        }
    }
}

pub open spec fn capped(n: nat) -> u64 {
    if n > u64::MAX {
        u64::MAX
    } else {
        n as u64
    }
}

/// The whole part of a numeral in double precision, as far as a count holds it.
pub open spec fn whole_of(digits: Seq<char>, places: int) -> u64 {
    let w = decimal_value(whole_part(digits, places));
    let (f, unit) = fraction_part(digits, places);
    if w > u64::MAX {
        u64::MAX
    } else {
        capped(nearest(w, f, unit))
    }
}

/// The whole seconds of a delay: its numeral in double precision, rounded down,
/// zero where it is negative or no number, and as many as a count holds where it
/// is more than that or infinite.
pub open spec fn whole_seconds(s: Seq<char>) -> u64 {
    let signed = s.len() > 0 && (s[0] == '+' || s[0] == '-');
    let body = if signed {
        s.drop_first()
    } else {
        s
    };
    if signed && s[0] == '-' {
        0
    } else if lowered(body) == "inf"@ || lowered(body) == "infinity"@ {
        u64::MAX
    } else {
        match numeral(body) {
            Some((digits, places)) => whole_of(digits, places),
            None => 0,
        }
    }
}

fn digits_only(v: &Vec<char>) -> (r: bool)
    ensures
        r == all_digits(v@),
{
    let mut i: usize = 0;
    while i < v.len()
        invariant
            i <= v.len(),
            forall|k: int| 0 <= k < i ==> is_digit(#[trigger] v@[k]),
        decreases v.len() - i,
    {
        if !char_is_digit(v[i]) {
            assert(!is_digit(v@[i as int]));
            return false;
        }
        i += 1;
    }
    true
}

proof fn lemma_prefix_is_no_larger(s: Seq<char>, i: int)
    requires
        0 <= i <= s.len(),
        all_digits(s),
    ensures
        decimal_value(s.take(i)) <= decimal_value(s),
    decreases s.len() - i,
{
    if i < s.len() {
        let next = s.take(i + 1);
        assert(next.drop_last() =~= s.take(i));
        assert(is_digit(s[i]));
        assert(decimal_value(s.take(i)) <= decimal_value(next));
        lemma_prefix_is_no_larger(s, i + 1);
    } else {
        assert(s.take(i) =~= s);
    }
}

proof fn lemma_zeros_add_nothing(s: Seq<char>, i: int)
    requires
        0 <= i <= s.len(),
        decimal_value(s.take(i)) == 0,
        forall|k: int| i <= k < s.len() ==> #[trigger] s[k] == '0',
    ensures
        decimal_value(s) == 0,
    decreases s.len() - i,
{
    if i < s.len() {
        let next = s.take(i + 1);
        assert(next.drop_last() =~= s.take(i));
        assert(next.last() == s[i]);
        lemma_zeros_add_nothing(s, i + 1);
    } else {
        assert(s.take(i) =~= s);
    }
}

/// The exponent behind the `e`.
fn read_exponent(v: &Vec<char>, from: usize) -> (r: Option<i128>)
    requires
        from <= v.len(),
    ensures
        match r {
            Some(n) => exponent(v@.skip(from as int)) == Some(n as int) && -FAR_EXPONENT <= n
                <= FAR_EXPONENT,
            None => exponent(v@.skip(from as int)) is None,
        },
{
    let ghost s = v@.skip(from as int);
    let n = v.len();
    let signed = from < n && (v[from] == '+' || v[from] == '-');
    let start: usize = if signed {
        from + 1
    } else {
        from
    };
    proof {
        if from < n {
            assert(s[0] == v@[from as int]);
        }
    }
    let digits = slice_chars(v, start, n);
    let ghost text = if signed {
        s.drop_first()
    } else {
        s
    };
    assert(digits@ =~= text);
    if digits.len() == 0 || !digits_only(&digits) {
        return None;
    }
    let mut size: i128 = 0;
    let mut i: usize = 0;
    while i < digits.len()
        invariant
            i <= digits.len(),
            all_digits(digits@),
            0 <= size <= FAR_EXPONENT,
            size == (if decimal_value(digits@.take(i as int)) > FAR_EXPONENT {
                FAR_EXPONENT as int
            } else {
                decimal_value(digits@.take(i as int)) as int
            }),
        decreases digits.len() - i,
    {
        let c = digits[i];
        assert(digits@.take(i + 1).drop_last() =~= digits@.take(i as int));
        assert(digits@.take(i + 1).last() == c);
        assert(is_digit(digits@[i as int]));
        let d: i128 = (c as u32 - '0' as u32) as i128;
        let grown = size * 10 + d;
        size = if grown > FAR_EXPONENT {
            FAR_EXPONENT
        } else {
            grown
        };
        i += 1;
    }
    assert(digits@.take(i as int) =~= digits@);
    if signed && v[from] == '-' {
        Some(-size)
    } else {
        Some(size)
    }
}

/// The value of so many digits, where a count can hold it.
fn count_of(digits: &Vec<char>, places: i128) -> (r: Option<u64>)
    requires
        all_digits(digits@),
    ensures
        match r {
            Some(n) => n == decimal_value(whole_part(digits@, places as int)),
            None => decimal_value(whole_part(digits@, places as int)) > u64::MAX,
        },
{
    let ghost s = whole_part(digits@, places as int);
    proof {
        assert forall|k: int| 0 <= k < s.len() implies is_digit(#[trigger] s[k]) by {
            if k < digits@.len() {
                assert(is_digit(digits@[k]));
            }
        }
    }
    let mut acc: u64 = 0;
    let mut i: i128 = 0;
    let n = digits.len();
    let mut k: usize = 0;
    while i < places
        invariant
            0 <= i,
            i <= places || places <= 0,
            n == digits@.len(),
            k <= n,
            i < n ==> k == i,
            i >= n ==> k == n,
            s == whole_part(digits@, places as int),
            all_digits(s),
            acc == decimal_value(s.take(i as int)),
            i > n ==> acc > 0,
            places <= 0 ==> i == 0,
        decreases places - i,
    {
        assert(s.take(i + 1).drop_last() =~= s.take(i as int));
        assert(s.take(i + 1).last() == s[i as int]);
        assert(is_digit(s[i as int]));
        let d: u64 = if k < n {
            let c = digits[k];
            assert(s[i as int] == c);
            (c as u32 - '0' as u32) as u64
        } else {
            assert(s[i as int] == '0');
            0
        };
        if k == n && acc == 0 {
            proof {
                lemma_zeros_add_nothing(s, i as int);
            }
            return Some(0);
        }
        if acc > (u64::MAX - d) / 10 {
            proof {
                lemma_prefix_is_no_larger(s, i + 1);
            }
            return None;
        }
        acc = acc * 10 + d;
        if k < n {
            k += 1;
        }
        i += 1;
    }
    assert(s.take(i as int) =~= s);
    Some(acc)
}

proof fn lemma_below_unit(s: Seq<char>)
    requires
        all_digits(s),
    ensures
        decimal_value(s) < ten_to(s.len()),
    decreases s.len(),
{
    if s.len() > 0 {
        let front = s.drop_last();
        assert forall|i: int| 0 <= i < front.len() implies is_digit(#[trigger] front[i]) by {
            assert(is_digit(s[i]));
        }
        lemma_below_unit(front);
        assert(is_digit(s.last()));
    }
}

/// A numeral by its first digit.
proof fn lemma_value_from_the_front(s: Seq<char>)
    requires
        s.len() > 0,
        all_digits(s),
    ensures
        decimal_value(s) == (s[0] as u32 - '0' as u32) * ten_to((s.len() - 1) as nat)
            + decimal_value(s.drop_first()),
    decreases s.len(),
{
    if s.len() == 1 {
        assert(s.drop_last() =~= Seq::empty());
        assert(s.drop_first() =~= Seq::empty());
        assert(is_digit(s[0]));
        assert(decimal_value(s.drop_last()) == 0);
        assert(decimal_value(s.drop_first()) == 0);
        let d = (s[0] as u32 - '0' as u32) as int;
        assert(ten_to(0) == 1);
        assert(d * 1 == d);
    } else {
        let front = s.drop_last();
        assert forall|i: int| 0 <= i < front.len() implies is_digit(#[trigger] front[i]) by {
            assert(is_digit(s[i]));
        }
        lemma_value_from_the_front(front);
        let rest = s.drop_first();
        assert(front.drop_first() =~= rest.drop_last());
        assert(rest.last() == s.last());
        assert(is_digit(s[0]));
        let d = (s[0] as u32 - '0' as u32) as int;
        let small = ten_to((s.len() - 2) as nat) as int;
        let large = ten_to((s.len() - 1) as nat) as int;
        assert(large == 10 * small);
        assert(10 * (d * small) == d * large) by (nonlinear_arith)
            requires
                large == 10 * small,
        ;
        let last = (s.last() as u32 - '0' as u32) as int;
        assert(is_digit(s.last()));
        assert(decimal_value(s) == 10 * decimal_value(front) + last);
        assert(decimal_value(rest) == 10 * decimal_value(rest.drop_last()) + last);
        assert(decimal_value(front) == d * small + decimal_value(front.drop_first()));
    }
}

/// Doubles what stands behind the point. Says whether it came to a whole one,
/// which is then taken off.
fn double_fraction(v: &mut Vec<char>) -> (r: bool)
    requires
        all_digits(old(v)@),
    ensures
        all_digits(final(v)@),
        final(v)@.len() == old(v)@.len(),
        2 * decimal_value(old(v)@) == decimal_value(final(v)@) + (if r {
            ten_to(old(v)@.len())
        } else {
            0
        }),
{
    let ghost before = v@;
    let n = v.len();
    let mut carry: u8 = 0;
    let mut i: usize = n;
    assert(before.skip(n as int) =~= Seq::empty());
    assert(v@.skip(n as int) =~= Seq::empty());
    while i > 0
        invariant
            i <= n,
            n == before.len(),
            v@.len() == n,
            carry <= 1,
            all_digits(before),
            all_digits(v@),
            forall|k: int| 0 <= k < i ==> #[trigger] v@[k] == before[k],
            2 * decimal_value(before.skip(i as int)) == decimal_value(v@.skip(i as int)) + carry
                * ten_to((n - i) as nat),
        decreases i,
    {
        let ghost now = v@;
        let ghost was = carry;
        let ghost at = i as int;
        i -= 1;
        let c = v[i];
        assert(c == before[i as int]);
        assert(is_digit(before[i as int]));
        let d: u8 = (c as u32 - '0' as u32) as u8;
        let sum: u8 = 2 * d + carry;
        let left: u8 = if sum >= 10 {
            sum - 10
        } else {
            sum
        };
        carry = if sum >= 10 {
            1
        } else {
            0
        };
        let digit: char = (48 + left) as char;
        v.set(i, digit);
        proof {
            let unit = ten_to((n - at) as nat) as int;
            assert(is_digit(digit));
            assert forall|k: int| 0 <= k < v@.len() implies is_digit(#[trigger] v@[k]) by {
                if k != i {
                    assert(v@[k] == now[k]);
                }
            }
            let old_tail = before.skip(i as int);
            let new_tail = v@.skip(i as int);
            assert forall|k: int| 0 <= k < old_tail.len() implies is_digit(
                #[trigger] old_tail[k],
            ) by {
                assert(is_digit(before[i + k]));
            }
            assert forall|k: int| 0 <= k < new_tail.len() implies is_digit(
                #[trigger] new_tail[k],
            ) by {
                assert(is_digit(v@[i + k]));
            }
            lemma_value_from_the_front(old_tail);
            lemma_value_from_the_front(new_tail);
            assert(old_tail.drop_first() =~= before.skip(at));
            assert(new_tail.drop_first() =~= now.skip(at));
            assert(ten_to((n - i) as nat) == 10 * unit);
            assert(2 * (d * unit) + was * unit == left * unit + carry * (10 * unit))
                by (nonlinear_arith)
                requires
                    2 * d + was == left + 10 * carry,
            ;
        }
    }
    assert(before.skip(0) =~= before);
    assert(v@.skip(0) =~= v@);
    carry == 1
}

fn places_needed(w: u64) -> (r: u32)
    requires
        w < WHOLE_DOUBLES,
    ensures
        r == binary_places(w as nat),
        1 <= r <= 54,
{
    if w == 0 {
        return 54;
    }
    let mut x: u64 = w;
    let mut r: u32 = 1;
    proof {
        lemma_places_are_few(w as nat);
    }
    while x < HALVED_DOUBLES
        invariant
            0 < x < WHOLE_DOUBLES,
            1 <= r,
            r - 1 + binary_places(x as nat) == binary_places(w as nat),
            binary_places(w as nat) <= 53,
            binary_places(x as nat) >= 1,
        decreases WHOLE_DOUBLES - x,
    {
        x = 2 * x;
        r += 1;
    }
    r
}

proof fn lemma_places_are_few(w: nat)
    requires
        0 < w < WHOLE_DOUBLES,
    ensures
        w * pow2((binary_places(w) - 1) as nat) < WHOLE_DOUBLES,
        binary_places(w) <= 53,
        binary_places(w) >= 1,
    decreases WHOLE_DOUBLES - w,
{
    lemma2_to64();
    lemma2_to64_rest();
    if w < HALVED_DOUBLES {
        lemma_places_are_few(2 * w);
        let k = (binary_places(2 * w) - 1) as nat;
        lemma_pow2_unfold(k + 1);
        assert((2 * w) * pow2(k) == w * pow2(k + 1)) by (nonlinear_arith)
            requires
                pow2(k + 1) == 2 * pow2(k),
        ;
        if k + 1 > 52 {
            if k + 1 > 53 {
                lemma_pow2_strictly_increases(53, k + 1);
            }
            assert(w * pow2(k + 1) >= pow2(k + 1)) by (nonlinear_arith)
                requires
                    w >= 1,
            ;
        }
    } else {
        assert(binary_places(w) == 1);
        assert(w * pow2(0) == w);
    }
}

/// Whether what stands behind the point rounds up to a whole one, `places`
/// binary places of it being decisive, and whether it lies just between.
fn rounds_up(digits: &Vec<char>, places: u32) -> (r: (bool, bool))
    requires
        all_digits(digits@),
        places <= 54,
    ensures
        ({
            let unit = ten_to(digits@.len());
            let short = (unit - decimal_value(digits@)) * pow2(places as nat);
            &&& r.0 == (short <= unit)
            &&& r.0 ==> r.1 == (short == unit)
        }),
{
    let ghost unit = ten_to(digits@.len()) as int;
    let ghost gap = unit - decimal_value(digits@);
    proof {
        lemma_below_unit(digits@);
        lemma2_to64();
    }
    let mut left = slice_chars(digits, 0, digits.len());
    assert(left@ =~= digits@);
    let mut i: u32 = 0;
    while i < places
        invariant
            i <= places,
            places <= 54,
            all_digits(left@),
            left@.len() == digits@.len(),
            unit == ten_to(digits@.len()),
            gap == unit - decimal_value(digits@),
            gap > 0,
            unit - decimal_value(left@) == gap * pow2(i as nat),
        decreases places - i,
    {
        let ghost was = decimal_value(left@) as int;
        let whole = double_fraction(&mut left);
        proof {
            lemma_pow2_unfold((i + 1) as nat);
            assert(gap * pow2((i + 1) as nat) == 2 * (gap * pow2(i as nat))) by (nonlinear_arith)
                requires
                    pow2((i + 1) as nat) == 2 * pow2(i as nat),
            ;
            lemma_below_unit(left@);
            if !whole {
                assert(gap * pow2((i + 1) as nat) > unit);
                if i + 1 < places {
                    lemma_pow2_strictly_increases((i + 1) as nat, places as nat);
                }
                assert(gap * pow2(places as nat) >= gap * pow2((i + 1) as nat))
                    by (nonlinear_arith)
                    requires
                        pow2(places as nat) >= pow2((i + 1) as nat),
                        gap > 0,
                ;
            }
        }
        if !whole {
            return (false, false);
        }
        i += 1;
    }
    (true, is_nothing(&left))
}

/// Whether a numeral is zero.
fn is_nothing(digits: &Vec<char>) -> (r: bool)
    requires
        all_digits(digits@),
    ensures
        r == (decimal_value(digits@) == 0),
{
    let mut i: usize = 0;
    while i < digits.len()
        invariant
            i <= digits.len(),
            all_digits(digits@),
            decimal_value(digits@.take(i as int)) == 0,
        decreases digits.len() - i,
    {
        let ghost next = digits@.take(i + 1);
        assert(next.drop_last() =~= digits@.take(i as int));
        assert(next.last() == digits@[i as int]);
        assert(is_digit(digits@[i as int]));
        if digits[i] != '0' {
            proof {
                assert(decimal_value(next) > 0);
                lemma_prefix_is_no_larger(digits@, i + 1);
            }
            return false;
        }
        i += 1;
    }
    assert(digits@.take(i as int) =~= digits@);
    true
}

/// A large whole number as steps of the numbers of double precision around it.
fn steps_of(w: u64) -> (r: (u64, u64))
    ensures
        r.1 == spacing(w as nat),
        r.0 == w as nat / spacing(w as nat),
        0 < r.1 < 4096,
        r.0 < WHOLE_DOUBLES,
{
    let mut t: u64 = w;
    let mut step: u64 = 1;
    while t >= WHOLE_DOUBLES
        invariant
            0 < step < 4096,
            t == w / step,
            spacing(w as nat) == step * spacing(t as nat),
        decreases t,
    {
        proof {
            let x = w as int;
            let c = step as int;
            lemma_div_denominator(x, c, 2);
            lemma_fundamental_div_mod(x, c);
            assert(c < 2048) by (nonlinear_arith)
                requires
                    x == c * (x / c) + x % c,
                    x % c >= 0,
                    x / c >= 0x20_0000_0000_0000,
                    x <= 0xffff_ffff_ffff_ffff,
                    c > 0,
            ;
            let inner = spacing((t / 2) as nat) as int;
            assert(c * (2 * inner) == (c * 2) * inner) by (nonlinear_arith);
        }
        t = t / 2;
        step = step * 2;
    }
    assert(step * 1 == step);
    (t, step)
}

/// The whole part of the nearest number of double precision, as far as a count
/// can hold it.
fn round_off(w: u64, rest: &Vec<char>) -> (r: u64)
    requires
        all_digits(rest@),
    ensures
        r == capped(nearest(w as nat, decimal_value(rest@), ten_to(rest@.len()))),
{
    if w < WHOLE_DOUBLES {
        let (up, tie) = rounds_up(rest, places_needed(w));
        return if up && (!tie || w < HALVED_DOUBLES || w % 2 == 1) {
            w + 1
        } else {
            w
        };
    }
    let (t, step) = steps_of(w);
    let low: u64 = w % step;
    proof {
        let a = t as int;
        let b = step as int;
        assert(0 <= a * b && (a + 1) * b <= 0x2_0000_0000_0000_0000) by (nonlinear_arith)
            requires
                0 <= a < 0x20_0000_0000_0000,
                0 < b < 4096,
        ;
        lemma_fundamental_div_mod(w as int, b);
        assert(a * b <= w) by (nonlinear_arith)
            requires
                w == b * a + (w as int) % b,
                (w as int) % b >= 0,
        ;
    }
    if 2 * low > step || (2 * low == step && (!is_nothing(rest) || t % 2 == 1)) {
        let up: u128 = (t as u128 + 1) * (step as u128);
        if up > u64::MAX as u128 {
            u64::MAX
        } else {
            up as u64
        }
    } else {
        t * step
    }
}

proof fn lemma_less_than_a_tenth(digits: Seq<char>, places: int)
    requires
        all_digits(digits),
        places < 0,
    ensures
        ({
            let (f, unit) = fraction_part(digits, places);
            nearest(0, f, unit) == 0
        }),
{
    let (f, unit) = fraction_part(digits, places);
    lemma_below_unit(digits);
    let n = (digits.len() - places) as nat;
    lemma_ten_to_grows(digits.len(), (n - 1) as nat);
    assert(unit == 10 * ten_to((n - 1) as nat));
    lemma2_to64();
    lemma_pow2_strictly_increases(1, 54);
    assert((unit - f) * pow2(54) > unit) by (nonlinear_arith)
        requires
            pow2(54) >= 2,
            10 * f < unit,
    ;
}

proof fn lemma_ten_to_grows(a: nat, b: nat)
    requires
        a <= b,
    ensures
        0 < ten_to(a) <= ten_to(b),
    decreases b,
{
    if b == 0 {
    } else if a < b {
        lemma_ten_to_grows(a, (b - 1) as nat);
    } else {
        lemma_ten_to_grows(0, (b - 1) as nat);
    }
}

/// The whole part of a numeral.
fn read_whole(digits: &Vec<char>, places: i128) -> (r: u64)
    requires
        all_digits(digits@),
    ensures
        r == whole_of(digits@, places as int),
{
    let ghost parts = fraction_part(digits@, places as int);
    match count_of(digits, places) {
        None => u64::MAX,
        Some(w) => {
            if places < 0 {
                // Less than a tenth, which rounds to nothing.
                proof {
                    lemma_less_than_a_tenth(digits@, places as int);
                    assert(whole_part(digits@, places as int) =~= Seq::empty());
                }
                return 0;
            }
            let from: usize = if places < digits.len() as i128 {
                places as usize
            } else {
                digits.len()
            };
            let rest = slice_chars(digits, from, digits.len());
            proof {
                assert(rest@ =~= digits@.skip(from as int));
                assert forall|k: int| 0 <= k < rest@.len() implies is_digit(
                    #[trigger] rest@[k],
                ) by {
                    assert(is_digit(digits@[from + k]));
                }
                assert(digits@.skip(0) =~= digits@);
                assert(digits@.skip(digits@.len() as int) =~= Seq::empty());
                assert(parts == (decimal_value(rest@), ten_to(rest@.len())));
            }
            round_off(w, &rest)
        },
    }
}

/// The whole seconds of a delay.
pub fn seconds_of(text: &str) -> (r: u64)
    ensures
        r == whole_seconds(text@),
{
    let all = chars_of(text);
    let n = all.len();
    let signed = n > 0 && (all[0] == '+' || all[0] == '-');
    if signed && all[0] == '-' {
        return 0;
    }
    let start: usize = if signed {
        1
    } else {
        0
    };
    let body = slice_chars(&all, start, n);
    let ghost b = if signed {
        text@.drop_first()
    } else {
        text@
    };
    assert(body@ =~= b);
    let low = lower_chars(&body);
    let word = text_of(&low);
    if same(&word, "inf") || same(&word, "infinity") {
        return u64::MAX;
    }
    proof {
        reveal_strlit("e");
        reveal_strlit(".");
    }
    let letter = chars_of("e");
    let point = chars_of(".");
    let len = body.len();
    let found = find_at(&low, &letter, 0);
    let mantissa_end: usize = match found {
        Some(i) => i,
        None => len,
    };
    let moved: Option<i128> = match found {
        Some(i) => read_exponent(&body, i + 1),
        None => Some(0),
    };
    let mantissa = slice_chars(&body, 0, mantissa_end);
    proof {
        if found is Some {
            assert(mantissa@ =~= body@.take(mantissa_end as int));
        } else {
            assert(mantissa@ =~= body@);
        }
    }
    let mlen = mantissa.len();
    let (before, after) = match find_at(&mantissa, &point, 0) {
        Some(i) => {
            let x = slice_chars(&mantissa, 0, i);
            let y = slice_chars(&mantissa, i + 1, mlen);
            assert(x@ =~= mantissa@.take(i as int));
            assert(y@ =~= mantissa@.skip(i + 1));
            (x, y)
        },
        None => {
            let x = slice_chars(&mantissa, 0, mlen);
            assert(x@ =~= mantissa@);
            let y: Vec<char> = Vec::new();
            assert(y@ =~= Seq::empty());
            (x, y)
        },
    };
    match moved {
        None => 0,
        Some(e) => {
            if !digits_only(&before) || !digits_only(&after) || (before.len() == 0 && after.len()
                == 0) {
                return 0;
            }
            let mut digits = slice_chars(&before, 0, before.len());
            assert(digits@ =~= before@);
            let mut i: usize = 0;
            assert(digits@ =~= before@ + after@.take(0));
            while i < after.len()
                invariant
                    i <= after.len(),
                    digits@ == before@ + after@.take(i as int),
                decreases after.len() - i,
            {
                digits.push(after[i]);
                i += 1;
                assert(digits@ =~= before@ + after@.take(i as int));
            }
            assert(after@.take(i as int) =~= after@);
            proof {
                assert forall|k: int| 0 <= k < digits@.len() implies is_digit(
                    #[trigger] digits@[k],
                ) by {
                    if k < before@.len() {
                        assert(is_digit(before@[k]));
                    } else {
                        assert(is_digit(after@[k - before@.len()]));
                    }
                }
            }
            let places: i128 = before.len() as i128 + e;
            read_whole(&digits, places)
        },
    }
}

// ------------------------------------------------------------- meta refresh

pub open spec fn is_letter(c: char) -> bool {
    'a' <= c <= 'z' || 'A' <= c <= 'Z'
}

/// Without the letters it starts with.
pub open spec fn unlettered(s: Seq<char>) -> Seq<char>
    decreases s.len(),
{
    if s.len() > 0 && is_letter(s[0]) {
        unlettered(s.drop_first())
    } else {
        s
    }
}

/// Without the equals signs it starts with.
pub open spec fn unequalled(s: Seq<char>) -> Seq<char>
    decreases s.len(),
{
    if s.len() > 0 && s[0] == '=' {
        unequalled(s.drop_first())
    } else {
        s
    }
}

pub open spec fn is_quote(c: char) -> bool {
    c == '\'' || c == '"'
}

/// Without the quotation marks around it.
pub open spec fn unquoted_start(s: Seq<char>) -> Seq<char>
    decreases s.len(),
{
    if s.len() > 0 && is_quote(s[0]) {
        unquoted_start(s.drop_first())
    } else {
        s
    }
}

pub open spec fn unquoted_end(s: Seq<char>) -> Seq<char>
    decreases s.len(),
{
    if s.len() > 0 && is_quote(s.last()) {
        unquoted_end(s.drop_last())
    } else {
        s
    }
}

/// The address behind the delay: `url=next.html`, in the quoting and spacing
/// of hand-written HTML.
pub open spec fn refresh_target(rest: Seq<char>) -> Seq<char> {
    unquoted_end(
        unquoted_start(trimmed(unequalled(trimmed_start(unlettered(trimmed(rest)))))),
    )
}

/// The tag stands for a refresh: that is the whole value of its `http-equiv`.
pub open spec fn is_refresh(tag: Seq<char>) -> bool {
    attribute_from(tag, "http-equiv"@, 0) matches Some(v) && lowered(trimmed(v)) == "refresh"@
}

/// What one tag asks for: the delay and the address, where it asks for any.
pub open spec fn refresh_of(tag: Seq<char>) -> Option<(u64, Seq<char>)> {
    if !is_refresh(tag) {
        None
    } else {
        match attribute_from(tag, "content"@, 0) {
            None => None,
            Some(content) => match cut(content, ";"@) {
                None => None,
                Some((delay, rest)) => if refresh_target(rest).len() == 0 {
                    None
                } else {
                    Some((whole_seconds(trimmed(delay)), refresh_target(rest)))
                },
            },
        }
    }
}

/// What the `<meta>` tags of a document ask for, from a place on, in order.
pub open spec fn refreshes_from(html: Seq<char>, from: int) -> Seq<(u64, Seq<char>)>
    decreases html.len() - from,
{
    match find_from(lowered(html), "<meta"@, from) {
        None => Seq::empty(),
        Some(start) => match find_from(lowered(html), ">"@, start) {
            None => Seq::empty(),
            Some(end) => if from <= start && start < end && end <= html.len() {
                let rest = refreshes_from(html, end);
                match refresh_of(html.subrange(start, end)) {
                    Some(r) => seq![r] + rest,
                    None => rest,
                }
            } else {
                Seq::empty()
            },
        },
    }
}

/// The first address that can be read, of those that a document asks for.
pub open spec fn first_refresh(asked: Seq<(u64, Seq<char>)>, base: Seq<char>) -> Option<
    (u64, UrlView),
>
    decreases asked.len(),
{
    if asked.len() == 0 {
        None
    } else {
        match url_joined(base, asked[0].1) {
            Ok(url) => Some((asked[0].0, url)),
            Err(_) => first_refresh(asked.drop_first(), base),
        }
    }
}

pub open spec fn asked_view(v: Seq<(u64, String)>) -> Seq<(u64, Seq<char>)> {
    v.map_values(|p: (u64, String)| (p.0, p.1@))
}

fn char_is_letter(c: char) -> (r: bool)
    ensures
        r == is_letter(c),
{
    ('a' <= c && c <= 'z') || ('A' <= c && c <= 'Z')
}

fn skip_letters(v: &Vec<char>, from: usize) -> (r: usize)
    requires
        from <= v.len(),
    ensures
        from <= r <= v@.len(),
        v@.skip(r as int) == unlettered(v@.skip(from as int)),
{
    let mut a: usize = from;
    while a < v.len() && char_is_letter(v[a])
        invariant
            from <= a <= v.len(),
            unlettered(v@.skip(from as int)) == unlettered(v@.skip(a as int)),
        decreases v.len() - a,
    {
        assert(v@.skip(a as int)[0] == v@[a as int]);
        assert(v@.skip(a as int).drop_first() =~= v@.skip(a + 1));
        a += 1;
    }
    proof {
        if a < v.len() {
            assert(v@.skip(a as int)[0] == v@[a as int]);
        }
    }
    a
}

fn skip_equals(v: &Vec<char>, from: usize) -> (r: usize)
    requires
        from <= v.len(),
    ensures
        from <= r <= v@.len(),
        v@.skip(r as int) == unequalled(v@.skip(from as int)),
{
    let mut a: usize = from;
    while a < v.len() && v[a] == '='
        invariant
            from <= a <= v.len(),
            unequalled(v@.skip(from as int)) == unequalled(v@.skip(a as int)),
        decreases v.len() - a,
    {
        assert(v@.skip(a as int)[0] == v@[a as int]);
        assert(v@.skip(a as int).drop_first() =~= v@.skip(a + 1));
        a += 1;
    }
    proof {
        if a < v.len() {
            assert(v@.skip(a as int)[0] == v@[a as int]);
        }
    }
    a
}

fn unquote(v: &Vec<char>) -> (r: String)
    ensures
        r@ == unquoted_end(unquoted_start(v@)),
{
    let mut a: usize = 0;
    assert(v@.skip(0) =~= v@);
    while a < v.len() && (v[a] == '\'' || v[a] == '"')
        invariant
            a <= v.len(),
            unquoted_start(v@) == unquoted_start(v@.skip(a as int)),
        decreases v.len() - a,
    {
        assert(v@.skip(a as int)[0] == v@[a as int]);
        assert(v@.skip(a as int).drop_first() =~= v@.skip(a + 1));
        a += 1;
    }
    let ghost t = v@.skip(a as int);
    assert(unquoted_start(v@) == t) by {
        if a < v.len() {
            assert(t[0] == v@[a as int]);
        }
    }
    let mut b: usize = v.len();
    assert(t.take(t.len() as int) =~= t);
    while a < b && (v[b - 1] == '\'' || v[b - 1] == '"')
        invariant
            a <= b <= v.len(),
            t == v@.skip(a as int),
            unquoted_end(t) == unquoted_end(t.take(b - a)),
        decreases b,
    {
        assert(t.take(b - a).drop_last() =~= t.take(b - a - 1));
        assert(t.take(b - a).last() == v@[b - 1]);
        b -= 1;
    }
    assert(unquoted_end(t) == t.take(b - a)) by {
        if a < b {
            assert(t.take(b - a).last() == v@[b - 1]);
        }
    }
    assert(t.take(b - a) =~= v@.subrange(a as int, b as int));
    slice_text(v, a, b)
}

fn read_target(rest: &str) -> (r: String)
    ensures
        r@ == refresh_target(rest@),
{
    let v = chars_of(&trim(rest));
    assert(v@.skip(0) =~= v@);
    let a = skip_letters(&v, 0);
    let b = skip_space(&v, a);
    let c = skip_equals(&v, b);
    let tail = slice_chars(&v, c, v.len());
    assert(tail@ =~= v@.skip(c as int));
    let (x, y) = trim_bounds(&tail);
    let middle = slice_chars(&tail, x, y);
    unquote(&middle)
}

/// What one tag asks for.
fn read_refresh(tag: &str) -> (r: Option<(u64, String)>)
    ensures
        match r {
            Some((delay, target)) => refresh_of(tag@) == Some((delay, target@)),
            None => refresh_of(tag@) is None,
        },
{
    proof {
        reveal_strlit("http-equiv");
        reveal_strlit("content");
    }
    match attribute_value(tag, "http-equiv") {
        None => {
            return None;
        },
        Some(v) => {
            if !same(&lower(&trim(&v)), "refresh") {
                return None;
            }
        },
    }
    match attribute_value(tag, "content") {
        None => None,
        Some(content) => match crate::text::cut_at(&content, ";") {
            None => None,
            Some((delay, rest)) => {
                let target = read_target(&rest);
                if target.as_str().is_empty() {
                    None
                } else {
                    Some((seconds_of(&trim(&delay)), target))
                }
            },
        },
    }
}

/// What the `<meta>` tags of a document ask for: delays and addresses, in
/// order. Parsed from the markup rather than the tree, because this decides
/// whether the tree is worth building at all.
pub fn meta_refreshes(html: &str) -> (r: Vec<(u64, String)>)
    ensures
        asked_view(r@) == refreshes_from(html@, 0),
{
    let v = chars_of(html);
    let low = lower_chars(&v);
    let open = chars_of("<meta");
    let close = chars_of(">");
    proof {
        reveal_strlit("<meta");
        reveal_strlit(">");
    }
    let mut out: Vec<(u64, String)> = Vec::new();
    let mut from: usize = 0;
    assert(asked_view(out@) =~= Seq::empty());
    assert(Seq::empty() + refreshes_from(html@, 0) =~= refreshes_from(html@, 0));
    loop
        invariant
            v@ == html@,
            low@ == lowered(html@),
            open@ == "<meta"@,
            close@ == ">"@,
            from <= v.len(),
            open@.len() == 5,
            open@[0] == '<',
            close@.len() == 1,
            close@[0] == '>',
            refreshes_from(html@, 0) == asked_view(out@) + refreshes_from(html@, from as int),
        decreases v.len() - from,
    {
        let ghost so_far = asked_view(out@);
        match find_at(&low, &open, from) {
            None => {
                assert(so_far + Seq::empty() =~= so_far);
                return out;
            },
            Some(start) => {
                match find_at(&low, &close, start) {
                    None => {
                        assert(so_far + Seq::empty() =~= so_far);
                        return out;
                    },
                    Some(end) => {
                        proof {
                            // A tag does not end where it begins.
                            if end == start {
                                let a = low@.subrange(start as int, start + 5);
                                let b = low@.subrange(start as int, start + 1);
                                assert(a[0] == low@[start as int]);
                                assert(b[0] == low@[start as int]);
                            }
                        }
                        let tag = slice_text(&v, start, end);
                        let ghost rest = refreshes_from(html@, end as int);
                        if let Some((delay, target)) = read_refresh(&tag) {
                            let ghost asked = (delay, target@);
                            let ghost before = out@;
                            out.push((delay, target));
                            assert(asked_view(out@) =~= asked_view(before).push(asked));
                            assert(so_far + (seq![asked] + rest) =~= asked_view(out@) + rest);
                        }
                        from = end;
                    },
                }
            },
        }
    }
}

/// The `<meta http-equiv="refresh">` target, if the document names one.
pub fn meta_refresh(html: &str, base: &Url) -> (r: Option<(u64, Url)>)
    ensures
        match r {
            Some((delay, url)) => first_refresh(refreshes_from(html@, 0), base@.href) == Some(
                (delay, url@),
            ),
            None => first_refresh(refreshes_from(html@, 0), base@.href) is None,
        },
{
    let asked = meta_refreshes(html);
    let ghost all = asked_view(asked@);
    let mut i: usize = 0;
    assert(all.skip(0) =~= all);
    while i < asked.len()
        invariant
            i <= asked.len(),
            all == asked_view(asked@),
            all == refreshes_from(html@, 0),
            first_refresh(all, base@.href) == first_refresh(all.skip(i as int), base@.href),
        decreases asked.len() - i,
    {
        assert(all.skip(i as int)[0] == (asked@[i as int].0, asked@[i as int].1@));
        assert(all.skip(i as int).drop_first() =~= all.skip(i + 1));
        if let Ok(url) = base.join(&asked[i].1) {
            return Some((asked[i].0, url));
        }
        i += 1;
    }
    None
}

// -------------------------------------------------------------- challenges

/// The text with its typographic apostrophes made plain.
pub open spec fn plain_apostrophes(s: Seq<char>) -> Seq<char> {
    s.map_values(
        |c: char|
            if c == '\u{2019}' || c == '\u{2bc}' {
                '\''
            } else {
                c
            },
    )
}

/// The phrase that means "you are being challenged", where the text holds one.
///
/// Deliberately specific: a false positive would tell an agent it was blocked
/// by a site that simply had little to say.
pub open spec fn challenge_in(text: Seq<char>) -> Option<Seq<char>> {
    if contains(text, "enable javascript and cookies to continue"@) {
        Some("enable javascript and cookies to continue"@)
    } else if contains(text, "checking your browser before accessing"@) {
        Some("checking your browser before accessing"@)
    } else if contains(text, "verifying you are human"@) {
        Some("verifying you are human"@)
    } else if contains(text, "cf-browser-verification"@) {
        Some("cf-browser-verification"@)
    } else if contains(text, "please enable cookies"@) {
        Some("please enable cookies"@)
    } else if contains(text, "ddos protection by"@) {
        Some("ddos protection by"@)
    } else if contains(text, "attention required! | cloudflare"@) {
        Some("attention required! | cloudflare"@)
    } else if contains(text, "javascript is disabled in your browser"@) {
        Some("javascript is disabled in your browser"@)
    } else if contains(text, "please enable javascript to proceed"@) {
        Some("please enable javascript to proceed"@)
    } else if contains(text, "a required part of this site couldn't load"@) {
        Some("a required part of this site couldn't load"@)
    } else {
        None
    }
}

/// The phrase that means "you are being challenged", in the raw markup: a
/// challenge page renders to almost nothing.
pub fn challenge_marker(html: &str) -> (r: Option<&'static str>)
    ensures
        crate::text::view_of(r) == challenge_in(plain_apostrophes(lowered(html@))),
{
    let low = lower_chars(&chars_of(html));
    let mut plain: Vec<char> = Vec::new();
    let mut i: usize = 0;
    while i < low.len()
        invariant
            i <= low.len(),
            plain@ == plain_apostrophes(low@.take(i as int)),
        decreases low.len() - i,
    {
        let c = low[i];
        plain.push(
            if c == '\u{2019}' || c == '\u{2bc}' {
                '\''
            } else {
                c
            },
        );
        i += 1;
        assert(plain@ =~= plain_apostrophes(low@.take(i as int)));
    }
    assert(low@.take(i as int) =~= low@);
    let text = text_of(&plain);
    if holds(&text, "enable javascript and cookies to continue") {
        Some("enable javascript and cookies to continue")
    } else if holds(&text, "checking your browser before accessing") {
        Some("checking your browser before accessing")
    } else if holds(&text, "verifying you are human") {
        Some("verifying you are human")
    } else if holds(&text, "cf-browser-verification") {
        Some("cf-browser-verification")
    } else if holds(&text, "please enable cookies") {
        Some("please enable cookies")
    } else if holds(&text, "ddos protection by") {
        Some("ddos protection by")
    } else if holds(&text, "attention required! | cloudflare") {
        Some("attention required! | cloudflare")
    } else if holds(&text, "javascript is disabled in your browser") {
        Some("javascript is disabled in your browser")
    } else if holds(&text, "please enable javascript to proceed") {
        Some("please enable javascript to proceed")
    } else if holds(&text, "a required part of this site couldn't load") {
        Some("a required part of this site couldn't load")
    } else {
        None
    }
}

// ------------------------------------------------------------ image sources

/// The words of a tag, between ASCII white space.
pub open spec fn tag_words(s: Seq<char>) -> Seq<Seq<char>>
    decreases s.len(),
{
    if s.len() == 0 {
        Seq::empty()
    } else if is_ascii_space(s.last()) {
        tag_words(s.drop_last())
    } else {
        let before = tag_words(s.drop_last());
        if s.len() == 1 || is_ascii_space(s[s.len() - 2]) {
            before.push(seq![s.last()])
        } else {
            before.drop_last().push(before.last().push(s.last()))
        }
    }
}

/// A word of a tag that names where an image comes from.
pub open spec fn names_a_source(word: Seq<char>) -> bool {
    let name = lowered(until_char(word, |c: char| c == '='));
    name == "src"@ || name == "srcset"@ || name == "data-src"@
}

/// The words that stay, each with a space behind it.
pub open spec fn kept_words(words: Seq<Seq<char>>) -> Seq<char>
    decreases words.len(),
{
    if words.len() == 0 {
        Seq::empty()
    } else {
        let before = kept_words(words.drop_last());
        if names_a_source(words.last()) {
            before
        } else {
            before + words.last() + " "@
        }
    }
}

/// The markup from a place on, with no image naming where it comes from.
pub open spec fn sourceless_from(html: Seq<char>, at: int) -> Seq<char>
    decreases html.len() - at,
{
    match find_from(lowered(html), "<img"@, at) {
        None => html.skip(at),
        Some(start) => {
            let end = match find_from(lowered(html), ">"@, start) {
                Some(e) => e + 1,
                None => html.len() as int,
            };
            if at <= start && start < end && end <= html.len() {
                html.subrange(at, start) + kept_words(tag_words(html.subrange(start, end))) + ">"@
                    + sourceless_from(html, end)
            } else {
                html.skip(at)
            }
        },
    }
}

fn split_words(v: &Vec<char>) -> (r: Vec<String>)
    ensures
        texts(r@) == tag_words(v@),
{
    let mut out: Vec<String> = Vec::new();
    let mut word = String::new();
    let mut open = false;
    let mut i: usize = 0;
    assert(texts(out@) =~= tag_words(v@.take(0)));
    while i < v.len()
        invariant
            i <= v.len(),
            open == (i > 0 && !is_ascii_space(v@[i - 1])),
            open ==> texts(out@).push(word@) == tag_words(v@.take(i as int)),
            !open ==> texts(out@) == tag_words(v@.take(i as int)) && word@.len() == 0,
        decreases v.len() - i,
    {
        let c = v[i];
        let ghost now = v@.take(i + 1);
        assert(now.drop_last() =~= v@.take(i as int));
        assert(now.last() == c);
        assert(i > 0 ==> now[now.len() - 2] == v@[i - 1]);
        let ghost words_before = texts(out@);
        if char_is_ascii_space(c) {
            if open {
                let ghost w = word@;
                out.push(word);
                word = String::new();
                assert(texts(out@) =~= words_before.push(w));
                open = false;
            }
        } else {
            let ghost w = word@;
            word.push(c);
            if open {
                assert(words_before.push(w).drop_last() =~= words_before);
                assert(words_before.push(w).last() == w);
            } else {
                assert(word@ =~= seq![c]);
            }
            open = true;
        }
        i += 1;
    }
    assert(v@.take(i as int) =~= v@);
    if open {
        let ghost w = word@;
        let ghost words_before = texts(out@);
        out.push(word);
        assert(texts(out@) =~= words_before.push(w));
    }
    out
}

fn word_is_source(word: &str) -> (r: bool)
    ensures
        r == names_a_source(word@),
{
    let v = chars_of(word);
    assert(v@.skip(0) =~= v@);
    let name = lower(&until_quote(&v, 0, '='));
    same(&name, "src") || same(&name, "srcset") || same(&name, "data-src")
}

/// Remove `src` from every `<img>`, for a second attempt at markup that killed
/// the parser.
///
/// Deliberately blunt: picking out *which* URL it choked on would mean
/// re-implementing its resolver to find out. `alt` survives, which is the part
/// an agent was going to read anyway.
pub fn strip_image_sources(html: &str) -> (r: String)
    ensures
        r@ == sourceless_from(html@, 0),
{
    let v = chars_of(html);
    let low = lower_chars(&v);
    let open = chars_of("<img");
    let close = chars_of(">");
    proof {
        reveal_strlit("<img");
        reveal_strlit(">");
    }
    let mut out = String::new();
    let mut at: usize = 0;
    assert(Seq::empty() + sourceless_from(html@, 0) =~= sourceless_from(html@, 0));
    loop
        invariant
            v@ == html@,
            low@ == lowered(html@),
            open@ == "<img"@,
            close@ == ">"@,
            open@.len() == 4,
            close@.len() == 1,
            at <= v.len(),
            sourceless_from(html@, 0) == out@ + sourceless_from(html@, at as int),
        decreases v.len() - at,
    {
        let n = v.len();
        match find_at(&low, &open, at) {
            None => {
                out.append(&slice_text(&v, at, n));
                assert(html@.skip(at as int) =~= html@.subrange(at as int, html@.len() as int));
                return out;
            },
            Some(start) => {
                let end: usize = match find_at(&low, &close, start) {
                    Some(e) => e + 1,
                    None => n,
                };
                let ghost so_far = out@;
                let tag = slice_chars(&v, start, end);
                let words = split_words(&tag);
                out.append(&slice_text(&v, at, start));
                let ghost head = out@;
                let ghost all = texts(words@);
                let mut i: usize = 0;
                assert(head + kept_words(all.take(0)) =~= head);
                while i < words.len()
                    invariant
                        i <= words.len(),
                        all == texts(words@),
                        out@ == head + kept_words(all.take(i as int)),
                    decreases words.len() - i,
                {
                    assert(all.take(i + 1).drop_last() =~= all.take(i as int));
                    assert(all.take(i + 1).last() == words@[i as int]@);
                    let ghost before = out@;
                    if !word_is_source(&words[i]) {
                        out.append(&words[i]);
                        out.append(" ");
                    }
                    i += 1;
                    assert(out@ =~= head + kept_words(all.take(i as int)));
                }
                assert(all.take(i as int) =~= all);
                out.append(">");
                assert(out@ + sourceless_from(html@, end as int) =~= so_far + (html@.subrange(
                    at as int,
                    start as int,
                ) + kept_words(all) + ">"@ + sourceless_from(html@, end as int)));
                at = end;
            },
        }
    }
}

// ------------------------------------------------------------------- others

/// The `Content-Type` a response declared, if it declared one.
pub fn declared_content_type(outcome: &FetchOutcome) -> (r: Option<String>)
    ensures
        string_view(r) == header_value(outcome@.headers, "content-type"@),
{
    match find_header(&outcome.headers, "content-type") {
        Some(v) => Some(v.to_owned()),
        None => None,
    }
}

/// A host without the dot that marks it as complete.
pub open spec fn undotted(host: Seq<char>) -> Seq<char> {
    if host.len() > 0 && host.last() == '.' {
        host.drop_last()
    } else {
        host
    }
}

/// A page far enough away for the wait to hide the work, that may run script.
pub open spec fn is_worth_warming(url: UrlView, script: bool) -> bool {
    &&& script
    &&& url.scheme == "http"@ || url.scheme == "https"@
    &&& url.host is Some
    &&& !is_loopback_host(undotted(url.host->Some_0))
}

/// Whether to compile the browser prelude while this navigation is in flight.
pub fn worth_warming(url: &Url, options: &PageOptions) -> (r: bool)
    ensures
        r == is_worth_warming(url@, options.script),
{
    if !options.script || !(same(&url.scheme, "http") || same(&url.scheme, "https")) {
        return false;
    }
    match &url.host {
        None => false,
        Some(host) => {
            let v = chars_of(host);
            let bare = if v.len() > 0 && v[v.len() - 1] == '.' {
                let t = slice_text(&v, 0, v.len() - 1);
                assert(t@ =~= host@.drop_last());
                t
            } else {
                host.clone()
            };
            !is_loopback(&bare)
        },
    }
}

// --------------------------------------------------------------------- laws

/// A handler attribute is script however its name is capitalised, and so is a
/// `javascript:` link.
pub proof fn law_capitals_do_not_disarm(name: Seq<char>, other: Seq<char>, value: Seq<char>)
    requires
        lowered(name) == lowered(other),
    ensures
        is_script_attribute(name, value) == is_script_attribute(other, value),
{
}

/// A character that is filtered out may stand anywhere.
proof fn lemma_filter_insert(s: Seq<char>, at: int, c: char, keep: spec_fn(char) -> bool)
    requires
        0 <= at <= s.len(),
        !keep(c),
    ensures
        s.insert(at, c).filter(keep) == s.filter(keep),
    decreases s.len(),
{
    reveal(Seq::filter);
    let t = s.insert(at, c);
    if at == s.len() {
        assert(t.drop_last() =~= s);
    } else {
        let rest = s.drop_last();
        assert(t.drop_last() =~= rest.insert(at, c));
        assert(t.last() == s.last());
        lemma_filter_insert(rest, at, c, keep);
    }
}

/// White space and control characters do not disarm a `javascript:` link,
/// wherever they stand in it.
pub proof fn law_padding_does_not_disarm(value: Seq<char>, at: int, c: char)
    requires
        0 <= at <= value.len(),
        is_ascii_space(c) || is_control(c),
    ensures
        names_javascript(value.insert(at, c)) == names_javascript(value),
{
    lemma_filter_insert(value, at, c, |c: char| !is_ascii_space(c) && !is_control(c));
}

proof fn lemma_filter_same(s: Seq<char>, f: spec_fn(char) -> bool, g: spec_fn(char) -> bool)
    requires
        forall|c: char| #[trigger] f(c) == g(c),
    ensures
        s.filter(f) == s.filter(g),
    decreases s.len(),
{
    reveal(Seq::filter);
    if s.len() > 0 {
        lemma_filter_same(s.drop_last(), f, g);
        assert(f(s.last()) == g(s.last()));
    }
}

proof fn lemma_unseen(c: char)
    ensures
        is_ascii_space(c) || is_control(c) <==> c <= ' ' || '\u{7f}' <= c <= '\u{9f}',
{
}

/// An address is script exactly where, with all that is blank or unprintable
/// taken out, up to the space and from U+007F to U+009F, it begins with
/// `javascript:` in any case.
pub proof fn law_which_addresses_are_script(value: &str, r: bool)
    requires
        call_ensures(is_javascript_url, (value,), r),
    ensures
        ({
            let kept = value@.filter(|c: char| !(c <= ' ' || '\u{7f}' <= c <= '\u{9f}'));
            r <==> kept.len() >= 11 && lowered(kept.take(11)) == "javascript:"@
        }),
{
    reveal_strlit("javascript:");
    let f = |c: char| !is_ascii_space(c) && !is_control(c);
    let g = |c: char| !(c <= ' ' || '\u{7f}' <= c <= '\u{9f}');
    assert forall|c: char| #[trigger] f(c) == g(c) by {
        lemma_unseen(c);
    }
    lemma_filter_same(value@, f, g);
    let kept = value@.filter(g);
    assert(cleaned(value@) == kept);
    if kept.len() >= 11 {
        assert(lowered(kept.take(11)) =~= lowered(kept).subrange(0, 11));
    }
}

/// An attribute is script exactly where its name begins with `on`, in any
/// case, and goes on, or where it is one of the six that hold an address, in
/// any case, and the address is script.
pub proof fn law_which_attributes_are_script(name: &str, value: &str, r: bool, address: bool)
    requires
        call_ensures(defuse_attribute, (name, value), r),
        call_ensures(is_javascript_url, (value,), address),
    ensures
        ({
            let n = lowered(name@);
            r <==> (n.len() >= 3 && n.take(2) == "on"@) || (address && (n == "href"@ || n == "src"@
                || n == "action"@ || n == "formaction"@ || n == "data"@ || n == "xlink:href"@))
        }),
{
    reveal_strlit("on");
    let n = lowered(name@);
    if n.len() >= 3 {
        if n[0] == 'o' && n[1] == 'n' {
            assert(n.take(2) =~= "on"@);
        }
        if n.take(2) == "on"@ {
            assert(n.take(2)[0] == n[0] && n.take(2)[1] == n[1]);
        }
    }
}

/// An address is worth warming exactly where script runs and it is `http` or
/// `https` to a host that is not this machine, with or without the dot that
/// marks a host as complete.
pub proof fn law_which_addresses_are_warmed(url: &Url, options: &PageOptions, r: bool)
    requires
        call_ensures(worth_warming, (url, options), r),
    ensures
        r <==> options.script && (url@.scheme == "http"@ || url@.scheme == "https"@) && url@.host
            is Some && !is_loopback_host(
            {
                let host = url@.host->Some_0;
                if host.len() > 0 && host[host.len() - 1] == '.' {
                    host.take(host.len() - 1)
                } else {
                    host
                }
            },
        ),
{
    let host = url@.host->Some_0;
    if host.len() > 0 {
        assert(host.take(host.len() - 1) =~= host.drop_last());
    }
}

/// A page is a challenge exactly where it holds one of these ten phrases, in
/// any case and with any apostrophe, and the phrase that is named is one that
/// it holds.
pub proof fn law_which_pages_are_challenges(html: &str, text: Seq<char>, r: Option<&'static str>)
    requires
        call_ensures(challenge_marker, (html,), r),
        text.len() == html@.len(),
        forall|i: int|
            0 <= i < text.len() ==> #[trigger] text[i] == if html@[i] == '\u{2019}' || html@[i]
                == '\u{2bc}' {
                '\''
            } else {
                lowered(html@)[i]
            },
    ensures
        r is None <==> !(contains(text, "enable javascript and cookies to continue"@) || contains(
            text,
            "checking your browser before accessing"@,
        ) || contains(text, "verifying you are human"@) || contains(text, "cf-browser-verification"@)
            || contains(text, "please enable cookies"@) || contains(text, "ddos protection by"@)
            || contains(text, "attention required! | cloudflare"@) || contains(
            text,
            "javascript is disabled in your browser"@,
        ) || contains(text, "please enable javascript to proceed"@) || contains(
            text,
            "a required part of this site couldn't load"@,
        )),
        r matches Some(phrase) ==> contains(text, phrase@),
{
    let plain = plain_apostrophes(lowered(html@));
    assert(plain =~= text);
}

/// The delay of a refresh is nothing where it is negative or no number, and a
/// whole number of seconds is that number.
pub proof fn law_how_a_delay_is_read(n: nat, s: Seq<char>)
    requires
        n < 0x20_0000_0000_0000,
    ensures
        whole_seconds(decimal(n)) == n,
        whole_seconds(seq!['+'] + decimal(n)) == n,
        whole_seconds(seq!['-'] + s) == 0,
        lowered(s) == "inf"@ || lowered(s) == "infinity"@ ==> whole_seconds(s) == u64::MAX,
{
    lemma_digits_read(n);
    let d = decimal(n);
    let plus = seq!['+'] + d;
    let minus = seq!['-'] + s;
    assert(plus.drop_first() =~= d);
    assert(minus[0] == '-');
    assert(plus[0] == '+');
    crate::address::law_a_numeral_reads_back(n);
    assert(is_digit(d[0]));
    reveal_strlit("inf");
    reveal_strlit("infinity");
    assert("inf"@[0] == 'i' && "infinity"@[0] == 'i');
    assert(lowered(d)[0] == d[0]);
    if lowered(s) == "inf"@ || lowered(s) == "infinity"@ {
        assert("inf"@.len() == 3 && "infinity"@.len() == 8);
        assert(s.len() == lowered(s).len());
        assert(crate::text::lower_char(s[0]) == lowered(s)[0]);
    }
}

proof fn lemma_digits_read(n: nat)
    requires
        n < 0x20_0000_0000_0000,
    ensures
        numeral(decimal(n)) is Some,
        ({
            let (digits, places) = numeral(decimal(n))->Some_0;
            whole_of(digits, places) == n
        }),
{
    let s = decimal(n);
    crate::address::law_a_numeral_reads_back(n);
    reveal_strlit("e");
    reveal_strlit(".");
    lemma_find_from(lowered(s), "e"@, 0);
    lemma_find_from(s, "."@, 0);
    if let Some(i) = find_from(lowered(s), "e"@, 0) {
        assert(lowered(s).subrange(i, i + 1)[0] == 'e');
        assert(lowered(s)[i] == crate::text::lower_char(s[i]));
        assert(is_digit(s[i]));
    }
    if let Some(i) = find_from(s, "."@, 0) {
        assert(s.subrange(i, i + 1)[0] == '.');
        assert(is_digit(s[i]));
    }
    assert(s + Seq::empty() =~= s);
    assert(all_digits(Seq::<char>::empty()));
    let (digits, places) = numeral(s)->Some_0;
    assert(digits =~= s);
    assert(places == s.len());
    assert(whole_part(digits, places) =~= s);
    let (f, unit) = fraction_part(digits, places);
    assert(f == 0) by {
        assert(decimal_value(Seq::<char>::empty()) == 0);
    }
    assert(unit == 1);
    assert(n < WHOLE_DOUBLES);
    let p = binary_places(n);
    lemma_some_places(n);
    vstd::arithmetic::power2::lemma_pow2_unfold(p);
    vstd::arithmetic::power2::lemma_pow2_pos((p - 1) as nat);
    assert((unit - f) * pow2(p) == pow2(p)) by (nonlinear_arith)
        requires
            unit - f == 1,
    ;
    assert(nearest(n, f, unit) == n);
}

proof fn lemma_some_places(w: nat)
    requires
        w < WHOLE_DOUBLES,
    ensures
        binary_places(w) >= 1,
{
}

/// Where a refresh leads is what stands behind the word and the equals sign,
/// out of its quotes.
pub proof fn law_where_a_refresh_leads(word: Seq<char>, quote: Seq<char>, to: Seq<char>)
    requires
        forall|i: int|
            0 <= i < word.len() ==> 'a' <= #[trigger] word[i] <= 'z' || 'A' <= word[i] <= 'Z',
        quote.len() == 0 || quote == seq!['"'] || quote == seq!['\''],
        to.len() > 0,
        to[0] != '"' && to[0] != '\'' && to[0] != '=' && !is_space(to[0]),
        to.last() != '"' && to.last() != '\'' && !is_space(to.last()),
    ensures
        refresh_target(word + seq!['='] + quote + to + quote) == to,
        refresh_target(seq![' '] + word + seq!['='] + quote + to + quote) == to,
{
    let quoted = quote + to + quote;
    let tail = seq!['='] + quoted;
    let all = word + tail;
    let padded = seq![' '] + all;
    assert(word + seq!['='] + quote + to + quote =~= all);
    assert(seq![' '] + word + seq!['='] + quote + to + quote =~= padded);
    assert(quoted.last() == (if quote.len() > 0 {
        quote[0]
    } else {
        to.last()
    }));
    assert(all.last() == quoted.last());
    assert(all[0] == (if word.len() > 0 {
        word[0]
    } else {
        '='
    }));
    assert(!is_space(all[0])) by {
        if word.len() > 0 {
            assert('a' <= word[0] <= 'z' || 'A' <= word[0] <= 'Z');
        }
    }
    lemma_bare(all);
    lemma_padded(all);
    lemma_unlettered(word, tail);
    lemma_after_equals(quote, to);
}

proof fn lemma_bare(s: Seq<char>)
    requires
        s.len() > 0,
        !is_space(s[0]),
        !is_space(s.last()),
    ensures
        trimmed(s) == s,
        trimmed_start(s) == s,
{
}

proof fn lemma_padded(s: Seq<char>)
    requires
        s.len() > 0,
        !is_space(s[0]),
        !is_space(s.last()),
    ensures
        trimmed(seq![' '] + s) == s,
{
    lemma_bare(s);
    let padded = seq![' '] + s;
    assert(padded.drop_first() =~= s);
    assert(padded[0] == ' ');
    assert(trimmed_start(padded) == trimmed_start(s));
}

proof fn lemma_after_equals(quote: Seq<char>, to: Seq<char>)
    requires
        quote.len() == 0 || quote == seq!['"'] || quote == seq!['\''],
        to.len() > 0,
        to[0] != '"' && to[0] != '\'' && to[0] != '=' && !is_space(to[0]),
        to.last() != '"' && to.last() != '\'' && !is_space(to.last()),
    ensures
        ({
            let tail = seq!['='] + (quote + to + quote);
            unquoted_end(unquoted_start(trimmed(unequalled(trimmed_start(tail))))) == to
        }),
{
    let quoted = quote + to + quote;
    let tail = seq!['='] + quoted;
    assert(tail[0] == '=');
    assert(trimmed_start(tail) == tail);
    assert(tail.drop_first() =~= quoted);
    assert(unquoted_end(to) == to);
    if quote.len() == 0 {
        assert(quoted =~= to);
        assert(unequalled(to) == to);
        assert(unequalled(tail) == to);
        lemma_bare(to);
        assert(unquoted_start(to) == to);
    } else {
        assert(quoted[0] == quote[0]);
        assert(quoted.last() == quote[0]);
        assert(unequalled(quoted) == quoted);
        assert(unequalled(tail) == quoted);
        lemma_bare(quoted);
        let opened = to + quote;
        assert(quoted.drop_first() =~= opened);
        assert(opened[0] == to[0]);
        assert(unquoted_start(opened) == opened);
        assert(unquoted_start(quoted) == opened);
        assert(opened.drop_last() =~= to);
        assert(opened.last() == quote[0]);
        assert(unquoted_end(opened) == to);
    }
}

proof fn lemma_unlettered(word: Seq<char>, tail: Seq<char>)
    requires
        forall|i: int|
            0 <= i < word.len() ==> 'a' <= #[trigger] word[i] <= 'z' || 'A' <= word[i] <= 'Z',
        tail.len() > 0,
        tail[0] == '=',
    ensures
        unlettered(word + tail) == tail,
    decreases word.len(),
{
    if word.len() == 0 {
        assert(word + tail =~= tail);
    } else {
        assert((word + tail)[0] == word[0]);
        assert((word + tail).drop_first() =~= word.drop_first() + tail);
        lemma_unlettered(word.drop_first(), tail);
    }
}

/// A tag is a refresh exactly where its `http-equiv` says `refresh`, its
/// `content` holds a semicolon, and something is left behind that; and then
/// it asks for what stands there after what stands before.
pub proof fn law_what_a_refresh_tag_asks(tag: Seq<char>)
    ensures
        ({
            let kind = attribute_from(tag, "http-equiv"@, 0);
            let content = attribute_from(tag, "content"@, 0);
            let parts = cut(content->Some_0, ";"@);
            let asks = kind is Some && lowered(trimmed(kind->Some_0)) == "refresh"@ && content
                is Some && parts is Some && refresh_target(parts->Some_0.1).len() > 0;
            &&& refresh_of(tag) is Some <==> asks
            &&& asks ==> refresh_of(tag) == Some(
                (whole_seconds(trimmed(parts->Some_0.0)), refresh_target(parts->Some_0.1)),
            )
        }),
{
}

/// The first refresh that leads to an address is the one that is followed.
pub proof fn law_the_first_refresh_wins(asked: Seq<(u64, Seq<char>)>, base: Seq<char>, i: int)
    requires
        0 <= i < asked.len(),
        url_joined(base, asked[i].1) is Ok,
        forall|j: int| 0 <= j < i ==> url_joined(base, (#[trigger] asked[j]).1) is Err,
    ensures
        first_refresh(asked, base) == Some((asked[i].0, url_joined(base, asked[i].1)->Ok_0)),
    decreases asked.len(),
{
    if i > 0 {
        let rest = asked.drop_first();
        assert(url_joined(base, asked[0].1) is Err);
        assert forall|j: int| 0 <= j < i - 1 implies url_joined(base, (#[trigger] rest[j]).1)
            is Err by {
            assert(rest[j] == asked[j + 1]);
        }
        law_the_first_refresh_wins(rest, base, i - 1);
    }
}

/// A tag loses the words that name a source, `src`, `srcset` and `data-src` in
/// any case, and keeps every other with a blank behind it.
pub proof fn law_which_words_of_a_tag_are_kept(words: Seq<Seq<char>>, name: Seq<char>, rest: Seq<char>)
    requires
        !name.contains('='),
        rest.len() == 0 || rest[0] == '=',
    ensures
        kept_words(words.push(name + rest)) == kept_words(words) + (if lowered(name) == "src"@
            || lowered(name) == "srcset"@ || lowered(name) == "data-src"@ {
            Seq::empty()
        } else {
            name + rest + " "@
        }),
        kept_words(Seq::empty()) == Seq::<char>::empty(),
{
    let word = name + rest;
    let all = words.push(word);
    assert(all.drop_last() =~= words);
    lemma_until(name, rest);
    assert(kept_words(all) =~= kept_words(words) + (if names_a_source(word) {
        Seq::empty()
    } else {
        word + " "@
    }));
}

proof fn lemma_until(name: Seq<char>, rest: Seq<char>)
    requires
        !name.contains('='),
        rest.len() == 0 || rest[0] == '=',
    ensures
        until_char(name + rest, |c: char| c == '=') == name,
    decreases name.len(),
{
    let all = name + rest;
    if name.len() == 0 {
        assert(all =~= rest);
        assert(until_char(all, |c: char| c == '=') =~= name);
    } else {
        let more = name.drop_first();
        assert(!more.contains('=')) by {
            if more.contains('=') {
                let k = choose|k: int| 0 <= k < more.len() && more[k] == '=';
                assert(name[k + 1] == '=');
            }
        }
        assert(name[0] != '=');
        lemma_until(more, rest);
        assert(all.drop_first() =~= more + rest);
        assert(until_char(all, |c: char| c == '=') =~= name);
    }
}

/// A page without images is left as it is.
pub proof fn law_a_page_without_images_is_untouched(html: Seq<char>)
    requires
        !contains(lowered(html), "<img"@),
    ensures
        sourceless_from(html, 0) == html,
{
    lemma_find_from(lowered(html), "<img"@, 0);
    assert(html.skip(0) =~= html);
}

/// The type that a response declares is the value of its first
/// `Content-Type`, in any case.
pub proof fn law_what_type_a_response_declares(outcome: &FetchOutcome, r: Option<String>)
    requires
        call_ensures(declared_content_type, (outcome,), r),
    ensures
        ({
            let all = crate::fetch::values_of(outcome@.headers, lowered("content-type"@));
            string_view(r) == if all.len() > 0 {
                Some(all[0])
            } else {
                None
            }
        }),
{
    crate::fetch::law_a_header_is_the_first_of_its_name(outcome@.headers, "content-type"@);
}

proof fn lemma_trim_front(gap: Seq<char>, rest: Seq<char>)
    requires
        forall|i: int| 0 <= i < gap.len() ==> is_space(#[trigger] gap[i]),
        rest.len() == 0 || !is_space(rest[0]),
    ensures
        trimmed_start(gap + rest) == rest,
    decreases gap.len(),
{
    let all = gap + rest;
    if gap.len() == 0 {
        assert(all =~= rest);
    } else {
        assert(all[0] == gap[0]);
        assert(is_space(gap[0]));
        assert(all.drop_first() =~= gap.drop_first() + rest);
        assert forall|i: int| 0 <= i < gap.drop_first().len() implies is_space(
            #[trigger] gap.drop_first()[i],
        ) by {
            assert(is_space(gap[i + 1]));
        }
        lemma_trim_front(gap.drop_first(), rest);
    }
}

proof fn lemma_until_stop(value: Seq<char>, tail: Seq<char>, stop: spec_fn(char) -> bool)
    requires
        forall|i: int| 0 <= i < value.len() ==> !stop(#[trigger] value[i]),
        tail.len() == 0 || stop(tail[0]),
    ensures
        until_char(value + tail, stop) == value,
    decreases value.len(),
{
    let all = value + tail;
    if value.len() == 0 {
        assert(all =~= tail);
        assert(until_char(all, stop) =~= value);
    } else {
        let more = value.drop_first();
        assert(!stop(value[0]));
        assert forall|i: int| 0 <= i < more.len() implies !stop(#[trigger] more[i]) by {
            assert(!stop(value[i + 1]));
        }
        lemma_until_stop(more, tail, stop);
        assert(all.drop_first() =~= more + tail);
        assert(until_char(all, stop) =~= value);
    }
}

/// An attribute of a tag is what stands behind its name and an equals sign,
/// with white space around that or without: what is between the quotes, or,
/// without quotes, what comes before white space or the end of the tag. The
/// name is found in any case, and at the start of a word only.
pub proof fn law_what_an_attribute_of_a_tag_is(
    head: Seq<char>,
    word: Seq<char>,
    gap: Seq<char>,
    pad: Seq<char>,
    quote: Seq<char>,
    value: Seq<char>,
    tail: Seq<char>,
)
    requires
        word.len() > 0,
        head.len() == 0 || is_ascii_space(head.last()),
        forall|i: int| 0 <= i < gap.len() ==> is_space(#[trigger] gap[i]),
        forall|i: int| 0 <= i < pad.len() ==> is_space(#[trigger] pad[i]),
        quote.len() == 0 || quote == seq!['"'] || quote == seq!['\''],
        quote.len() > 0 ==> !value.contains(quote[0]) && tail.len() > 0 && tail[0] == quote[0],
        quote.len() == 0 ==> value.len() > 0 && !is_space(value[0]) && value[0] != '"' && value[0]
            != '\'' && (forall|i: int|
            0 <= i < value.len() ==> !is_ascii_space(#[trigger] value[i]) && value[i] != '>') && (
        tail.len() == 0 || is_ascii_space(tail[0]) || tail[0] == '>'),
        forall|j: int|
            0 <= j < head.len() ==> !occurs_at(
                lowered(head + word + gap + seq!['='] + pad + quote + value + tail),
                lowered(word),
                j,
            ),
    ensures
        attribute_from(
            head + word + gap + seq!['='] + pad + quote + value + tail,
            lowered(word),
            0,
        ) == Some(value),
{
    let body = quote + value + tail;
    let behind = seq!['='] + (pad + body);
    let tag = head + word + gap + seq!['='] + pad + quote + value + tail;
    let name = lowered(word);
    let low = lowered(tag);
    let at = head.len() as int;
    let next = at + word.len();
    assert(tag =~= head + word + (gap + behind));
    assert(occurs_at(low, name, at)) by {
        assert(low.subrange(at, at + name.len()) =~= name);
    }
    lemma_find_from(low, name, 0);
    assert(find_from(low, name, 0) == Some(at));
    assert(tag.skip(next) =~= gap + behind);
    lemma_trim_front(gap, behind);
    assert(behind[0] == '=');
    if at > 0 {
        assert(low[at - 1] == crate::text::lower_char(head.last()));
    }
    assert(behind.drop_first() =~= pad + body);
    if quote.len() > 0 {
        assert(body[0] == quote[0]);
        lemma_trim_front(pad, body);
        assert(body.drop_first() =~= value + tail);
        let stop = |c: char| c == body[0];
        assert forall|i: int| 0 <= i < value.len() implies !stop(#[trigger] value[i]) by {
            assert(value.contains(value[i]));
        }
        lemma_until_stop(value, tail, stop);
    } else {
        assert(body =~= value + tail);
        assert(body[0] == value[0]);
        lemma_trim_front(pad, body);
        let stop = |c: char| is_ascii_space(c) || c == '>';
        lemma_until_stop(value, tail, stop);
    }
    assert(value_behind(body) == value);
    assert(attribute_from(tag, name, 0) == Some(value_behind(trimmed_start(behind.drop_first()))));
}

/// A name that a tag does not hold, in any case, is no attribute of it.
pub proof fn law_what_is_not_in_a_tag_is_no_attribute(tag: Seq<char>, name: Seq<char>)
    requires
        !contains(lowered(tag), name),
    ensures
        attribute_from(tag, name, 0) is None,
{
    lemma_find_from(lowered(tag), name, 0);
}

proof fn lemma_find_later(s: Seq<char>, p: Seq<char>, cutoff: int, from: int)
    requires
        0 <= cutoff <= s.len(),
        0 <= from,
        p.len() > 0,
    ensures
        match find_from(s.skip(cutoff), p, from) {
            Some(k) => find_from(s, p, cutoff + from) == Some(cutoff + k),
            None => find_from(s, p, cutoff + from) is None,
        },
{
    let t = s.skip(cutoff);
    lemma_find_from(t, p, from);
    lemma_find_from(s, p, cutoff + from);
    assert forall|i: int| from <= i implies (#[trigger] occurs_at(t, p, i) <==> occurs_at(
        s,
        p,
        cutoff + i,
    )) by {
        if i + p.len() <= t.len() {
            assert(t.subrange(i, i + p.len()) =~= s.subrange(cutoff + i, cutoff + i + p.len()));
        }
    }
    match find_from(t, p, from) {
        Some(k) => {
            assert(occurs_at(s, p, cutoff + k));
            let m = find_from(s, p, cutoff + from)->Some_0;
            assert(find_from(s, p, cutoff + from) is Some);
            assert(occurs_at(t, p, m - cutoff)) by {
                assert(occurs_at(s, p, cutoff + (m - cutoff)));
            }
            assert(m - cutoff >= k);
            assert(m <= cutoff + k);
        },
        None => {
            if let Some(m) = find_from(s, p, cutoff + from) {
                assert(occurs_at(s, p, cutoff + (m - cutoff)));
                assert(occurs_at(t, p, m - cutoff));
            }
        },
    }
}

proof fn lemma_refreshes_later(html: Seq<char>, cutoff: int, from: int)
    requires
        0 <= cutoff <= html.len(),
        0 <= from <= html.len() - cutoff,
    ensures
        refreshes_from(html.skip(cutoff), from) == refreshes_from(html, cutoff + from),
    decreases html.len() - cutoff - from,
{
    reveal_strlit("<meta");
    reveal_strlit(">");
    let t = html.skip(cutoff);
    let low = lowered(html);
    assert(lowered(t) =~= low.skip(cutoff));
    lemma_find_later(low, "<meta"@, cutoff, from);
    lemma_find_from(lowered(t), "<meta"@, from);
    if let Some(start) = find_from(lowered(t), "<meta"@, from) {
        lemma_find_later(low, ">"@, cutoff, start);
        lemma_find_from(lowered(t), ">"@, start);
        if let Some(end) = find_from(lowered(t), ">"@, start) {
            assert(lowered(t).subrange(start, start + 5)[0] == '<');
            assert(lowered(t).subrange(end, end + 1)[0] == '>');
            assert(start < end);
            assert(t.subrange(start, end) =~= html.subrange(cutoff + start, cutoff + end));
            lemma_refreshes_later(html, cutoff, end);
        }
    }
}

/// The refreshes of a page are those of its `meta` tags, in any case, one
/// after the other: what the first tag asks for, and then those of what comes
/// behind it. A page that holds no such tag has none.
pub proof fn law_a_page_is_read_tag_by_tag(before: Seq<char>, tag: Seq<char>, behind: Seq<char>)
    requires
        tag.len() >= 5,
        lowered(tag.take(5)) == "<meta"@,
        !tag.contains('>'),
        behind.len() > 0,
        behind[0] == '>',
        forall|j: int|
            0 <= j < before.len() ==> !occurs_at(lowered(before + tag + behind), "<meta"@, j),
    ensures
        refreshes_from(before + tag + behind, 0) == (match refresh_of(tag) {
            Some(r) => seq![r],
            None => Seq::empty(),
        }) + refreshes_from(behind, 0),
{
    reveal_strlit("<meta");
    reveal_strlit(">");
    let html = before + tag + behind;
    let low = lowered(html);
    let start = before.len() as int;
    let end = (before.len() + tag.len()) as int;
    assert(occurs_at(low, "<meta"@, start)) by {
        assert(low.subrange(start, start + 5) =~= lowered(tag.take(5)));
    }
    lemma_find_from(low, "<meta"@, 0);
    assert(find_from(low, "<meta"@, 0) == Some(start));
    lemma_find_from(low, ">"@, start);
    assert(occurs_at(low, ">"@, end)) by {
        assert(html[end] == '>');
        assert(low.subrange(end, end + 1) =~= ">"@);
    }
    assert forall|j: int| start <= j < end implies !occurs_at(low, ">"@, j) by {
        if occurs_at(low, ">"@, j) {
            assert(low.subrange(j, j + 1)[0] == '>');
            assert(low[j] == crate::text::lower_char(html[j]));
            assert(html[j] == tag[j - start]);
            assert(tag.contains(tag[j - start]));
        }
    }
    assert(find_from(low, ">"@, start) == Some(end));
    assert(html.subrange(start, end) =~= tag);
    assert(html.skip(end) =~= behind);
    lemma_refreshes_later(html, end, 0);
    assert(refreshes_from(html, 0) =~= (match refresh_of(tag) {
        Some(r) => seq![r],
        None => Seq::empty(),
    }) + refreshes_from(behind, 0));
}

/// A page without a `meta` tag asks for no refresh.
pub proof fn law_a_page_without_meta_stays(html: Seq<char>)
    requires
        !contains(lowered(html), "<meta"@),
    ensures
        refreshes_from(html, 0) == Seq::<(u64, Seq<char>)>::empty(),
{
    lemma_find_from(lowered(html), "<meta"@, 0);
}

proof fn lemma_sourceless_later(html: Seq<char>, cutoff: int, from: int)
    requires
        0 <= cutoff <= html.len(),
        0 <= from <= html.len() - cutoff,
    ensures
        sourceless_from(html.skip(cutoff), from) == sourceless_from(html, cutoff + from),
    decreases html.len() - cutoff - from,
{
    reveal_strlit("<img");
    reveal_strlit(">");
    let t = html.skip(cutoff);
    let low = lowered(html);
    assert(lowered(t) =~= low.skip(cutoff));
    lemma_find_later(low, "<img"@, cutoff, from);
    lemma_find_from(lowered(t), "<img"@, from);
    assert(t.skip(from) =~= html.skip(cutoff + from));
    if let Some(start) = find_from(lowered(t), "<img"@, from) {
        lemma_find_later(low, ">"@, cutoff, start);
        lemma_find_from(lowered(t), ">"@, start);
        let end = match find_from(lowered(t), ">"@, start) {
            Some(e) => e + 1,
            None => t.len() as int,
        };
        assert(t.subrange(from, start) =~= html.subrange(cutoff + from, cutoff + start));
        assert(t.subrange(start, end) =~= html.subrange(cutoff + start, cutoff + end));
        lemma_sourceless_later(html, cutoff, end);
    }
}

/// A page loses its images' sources tag by tag: what stands before the first
/// `img`, in any case, is kept, the tag keeps its words but those that name a
/// source, and the rest is as if it stood alone.
pub proof fn law_images_lose_their_sources_tag_by_tag(
    before: Seq<char>,
    tag: Seq<char>,
    behind: Seq<char>,
)
    requires
        tag.len() >= 5,
        lowered(tag.take(4)) == "<img"@,
        tag.last() == '>',
        !tag.drop_last().contains('>'),
        forall|j: int|
            0 <= j < before.len() ==> !occurs_at(lowered(before + tag + behind), "<img"@, j),
    ensures
        sourceless_from(before + tag + behind, 0) == before + kept_words(tag_words(tag)) + ">"@
            + sourceless_from(behind, 0),
{
    reveal_strlit("<img");
    reveal_strlit(">");
    let html = before + tag + behind;
    let low = lowered(html);
    let start = before.len() as int;
    let end = (before.len() + tag.len()) as int;
    assert(occurs_at(low, "<img"@, start)) by {
        assert(low.subrange(start, start + 4) =~= lowered(tag.take(4)));
    }
    lemma_find_from(low, "<img"@, 0);
    assert(find_from(low, "<img"@, 0) == Some(start));
    lemma_find_from(low, ">"@, start);
    assert(occurs_at(low, ">"@, end - 1)) by {
        assert(html[end - 1] == '>');
        assert(low.subrange(end - 1, end) =~= ">"@);
    }
    assert forall|j: int| start <= j < end - 1 implies !occurs_at(low, ">"@, j) by {
        if occurs_at(low, ">"@, j) {
            assert(low.subrange(j, j + 1)[0] == '>');
            assert(low[j] == crate::text::lower_char(html[j]));
            assert(html[j] == tag.drop_last()[j - start]);
            assert(tag.drop_last().contains(tag.drop_last()[j - start]));
        }
    }
    assert(find_from(low, ">"@, start) == Some(end - 1));
    assert(html.subrange(0, start) =~= before);
    assert(html.subrange(start, end) =~= tag);
    assert(html.skip(end) =~= behind);
    lemma_sourceless_later(html, end, 0);
}

/// The words of a tag are what stands between its blanks: a blank ends a word
/// and adds none, and anything else goes on with the word or begins one.
pub proof fn law_how_a_tag_falls_into_words(s: Seq<char>, c: char)
    ensures
        is_ascii_space(c) ==> tag_words(s.push(c)) == tag_words(s),
        !is_ascii_space(c) && (s.len() == 0 || is_ascii_space(s.last())) ==> tag_words(s.push(c))
            == tag_words(s).push(seq![c]),
        !is_ascii_space(c) && s.len() > 0 && !is_ascii_space(s.last()) ==> tag_words(s.push(c)).len()
            == tag_words(s).len() && tag_words(s.push(c)).last() == tag_words(s).last().push(c)
            && tag_words(s.push(c)).drop_last() == tag_words(s).drop_last(),
        s.len() > 0 && !is_ascii_space(s.last()) ==> tag_words(s).len() > 0,
        is_ascii_space(c) <==> c == ' ' || c == '\t' || c == '\n' || c == '\r' || c == '\u{c}',
{
    let t = s.push(c);
    assert(t.drop_last() =~= s);
    assert(t.last() == c);
    if s.len() > 0 {
        assert(t[t.len() - 2] == s.last());
        lemma_words_there(s);
    }
    if !is_ascii_space(c) && s.len() > 0 && !is_ascii_space(s.last()) {
        let before = tag_words(s);
        let all = before.drop_last().push(before.last().push(c));
        assert(tag_words(t) == all);
        assert(all.drop_last() =~= before.drop_last());
    }
}

proof fn lemma_words_there(s: Seq<char>)
    ensures
        s.len() > 0 && !is_ascii_space(s.last()) ==> tag_words(s).len() > 0,
    decreases s.len(),
{
    if s.len() > 1 && !is_ascii_space(s.last()) && !is_ascii_space(s[s.len() - 2]) {
        let front = s.drop_last();
        assert(front.last() == s[s.len() - 2]);
        lemma_words_there(front);
    }
}

/// A part of a second is no second: a number with a digit behind its point is
/// read as the number before it.
pub proof fn law_a_part_of_a_second_is_none(n: nat, c: char)
    requires
        n < 0x1_0000_0000,
        is_digit(c),
    ensures
        whole_seconds(decimal(n) + seq!['.', c]) == n,
{
    let whole = decimal(n);
    let s = whole + seq!['.', c];
    crate::address::law_a_numeral_reads_back(n);
    reveal_strlit("e");
    reveal_strlit(".");
    reveal_strlit("inf");
    reveal_strlit("infinity");
    assert(s[0] == whole[0]);
    assert(is_digit(whole[0]));
    assert("inf"@[0] == 'i' && "infinity"@[0] == 'i');
    assert(lowered(s)[0] == crate::text::lower_char(s[0]));
    let k = whole.len() as int;
    lemma_find_from(lowered(s), "e"@, 0);
    if let Some(i) = find_from(lowered(s), "e"@, 0) {
        assert(lowered(s).subrange(i, i + 1)[0] == 'e');
        assert(lowered(s)[i] == crate::text::lower_char(s[i]));
        if i < k {
            assert(s[i] == whole[i]);
            assert(is_digit(whole[i]));
        }
    }
    lemma_find_from(s, "."@, 0);
    assert(occurs_at(s, "."@, k)) by {
        assert(s.subrange(k, k + 1) =~= "."@);
    }
    if let Some(i) = find_from(s, "."@, 0) {
        assert(s.subrange(i, i + 1)[0] == '.');
        if i < k {
            assert(s[i] == whole[i]);
            assert(is_digit(whole[i]));
        }
    }
    assert(find_from(s, "."@, 0) == Some(k));
    assert(s.take(k) =~= whole);
    assert(s.skip(k + 1) =~= seq![c]);
    assert(all_digits(seq![c]));
    let digits = whole + seq![c];
    assert(numeral(s) == Some((digits, k)));
    assert(whole_part(digits, k) =~= whole);
    assert(digits.skip(k) =~= seq![c]);
    let d = (c as u32 - '0' as u32) as nat;
    assert(decimal_value(seq![c]) == d) by {
        assert(seq![c].drop_last() =~= Seq::empty());
        assert(decimal_value(Seq::<char>::empty()) == 0);
    }
    assert(ten_to(1) == 10) by {
        assert(ten_to(0) == 1);
    }
    let (f, unit) = fraction_part(digits, k);
    assert(f == d && unit == 10 && d <= 9);
    lemma_many_places(n);
    let p = binary_places(n);
    lemma2_to64();
    if p > 4 {
        lemma_pow2_strictly_increases(4, p);
    }
    assert(pow2(p) >= 16);
    assert((unit - f) * pow2(p) > unit) by (nonlinear_arith)
        requires
            unit == 10,
            f <= 9,
            pow2(p) >= 16,
    ;
    assert(nearest(n, f, unit) == n);
}

proof fn lemma_many_places(w: nat)
    requires
        w < 0x1_0000_0000,
    ensures
        binary_places(w) >= 4,
{
    if w > 0 {
        lemma_some_places(8 * w);
        assert(binary_places(4 * w) == 1 + binary_places(8 * w));
        assert(binary_places(2 * w) == 1 + binary_places(4 * w));
        assert(binary_places(w) == 1 + binary_places(2 * w));
    }
}

} // verus!
