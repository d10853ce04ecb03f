//! Text as sequences of characters: the operations the rest of the library is
//! stated in, each beside the executable function that computes it.
use vstd::prelude::*;

verus! {

/// Unicode's `White_Space` property.
pub open spec fn is_space(c: char) -> bool {
    let n = c as u32;
    ||| 0x9 <= n <= 0xd
    ||| n == 0x20
    ||| n == 0x85
    ||| n == 0xa0
    ||| n == 0x1680
    ||| 0x2000 <= n <= 0x200a
    ||| n == 0x2028
    ||| n == 0x2029
    ||| n == 0x202f
    ||| n == 0x205f
    ||| n == 0x3000
}

/// The text from its first character that is not white space on.
pub open spec fn trimmed_start(s: Seq<char>) -> Seq<char>
    decreases s.len(),
{
    if s.len() > 0 && is_space(s[0]) {
        trimmed_start(s.drop_first())
    } else {
        s
    }
}

/// The text up to its last character that is not white space.
pub open spec fn trimmed_end(s: Seq<char>) -> Seq<char>
    decreases s.len(),
{
    if s.len() > 0 && is_space(s.last()) {
        trimmed_end(s.drop_last())
    } else {
        s
    }
}

/// The text without the white space around it.
pub open spec fn trimmed(s: Seq<char>) -> Seq<char> {
    trimmed_end(trimmed_start(s))
}

/// The words of a text on one line, a single space between each and the next.
pub open spec fn on_one_line(s: Seq<char>) -> Seq<char>
    decreases s.len(),
{
    if s.len() == 0 {
        s
    } else {
        let before = on_one_line(s.drop_last());
        if is_space(s.last()) {
            before
        } else if s.len() > 1 && is_space(s[s.len() - 2]) && before.len() > 0 {
            before.push(' ').push(s.last())
        } else {
            before.push(s.last())
        }
    }
}

/// The only white space in the text is the space itself, and none stands at
/// either end.
pub open spec fn is_one_line(s: Seq<char>) -> bool {
    &&& forall|i: int| 0 <= i < s.len() && is_space(#[trigger] s[i]) ==> s[i] == ' '
    &&& s.len() > 0 ==> !is_space(s[0]) && !is_space(s.last())
}

pub open spec fn lower_char(c: char) -> char {
    if 'A' <= c <= 'Z' {
        ((c as u8) + 32) as char
    } else {
        c
    }
}

pub open spec fn upper_char(c: char) -> char {
    if 'a' <= c <= 'z' {
        ((c as u8) - 32) as char
    } else {
        c
    }
}

/// The text with its ASCII capitals made small.
pub open spec fn lowered(s: Seq<char>) -> Seq<char> {
    s.map_values(|c: char| lower_char(c))
}

/// The text with its ASCII small letters made capitals.
pub open spec fn uppered(s: Seq<char>) -> Seq<char> {
    s.map_values(|c: char| upper_char(c))
}

/// The pieces between the separators; one more piece than separators.
pub open spec fn split_on(s: Seq<char>, sep: char) -> Seq<Seq<char>>
    decreases s.len(),
{
    if s.len() == 0 {
        seq![Seq::empty()]
    } else {
        let rest = split_on(s.drop_last(), sep);
        if s.last() == sep {
            rest.push(Seq::empty())
        } else {
            rest.drop_last().push(rest.last().push(s.last()))
        }
    }
}

/// `p` stands in `s` at position `i`.
pub open spec fn occurs_at(s: Seq<char>, p: Seq<char>, i: int) -> bool {
    0 <= i && i + p.len() <= s.len() && s.subrange(i, i + p.len()) == p
}

pub open spec fn contains(s: Seq<char>, p: Seq<char>) -> bool {
    exists|i: int| occurs_at(s, p, i)
}

/// `i` is where `p` first stands in `s`, no earlier than `from`.
pub open spec fn first_at(s: Seq<char>, p: Seq<char>, from: int, i: int) -> bool {
    from <= i && occurs_at(s, p, i) && forall|j: int|
        from <= j < i ==> !occurs_at(s, p, j)
}

/// Where `p` first stands in `s`, no earlier than `from`.
pub open spec fn find_from(s: Seq<char>, p: Seq<char>, from: int) -> Option<int> {
    if exists|i: int| from <= i && occurs_at(s, p, i) {
        Some(choose|i: int| first_at(s, p, from, i))
    } else {
        None
    }
}

pub open spec fn starts_with(s: Seq<char>, p: Seq<char>) -> bool {
    occurs_at(s, p, 0)
}

pub open spec fn ends_with(s: Seq<char>, p: Seq<char>) -> bool {
    occurs_at(s, p, s.len() - p.len())
}

pub open spec fn is_digit(c: char) -> bool {
    '0' <= c <= '9'
}

pub open spec fn digit_char(n: nat) -> char {
    (('0' as u32) + n) as char
}

/// The number in decimal, without leading zeros.
pub open spec fn decimal(n: nat) -> Seq<char>
    decreases n,
{
    if n < 10 {
        seq![digit_char(n)]
    } else {
        decimal(n / 10).push(digit_char(n % 10))
    }
}

/// Character by character, the order of strings.
pub open spec fn text_less(a: Seq<char>, b: Seq<char>) -> bool
    decreases a.len(),
{
    if b.len() == 0 {
        false
    } else if a.len() == 0 {
        true
    } else if a[0] != b[0] {
        a[0] < b[0]
    } else {
        text_less(a.drop_first(), b.drop_first())
    }
}

/// What the strings of a list spell.
pub open spec fn texts(v: Seq<String>) -> Seq<Seq<char>> {
    v.map_values(|s: String| s@)
}

/// Each text comes before the next: ordered, and none twice.
pub open spec fn ascending(v: Seq<Seq<char>>) -> bool {
    forall|i: int, j: int| 0 <= i < j < v.len() ==> text_less(#[trigger] v[i], #[trigger] v[j])
}

/// The texts one after the other with `sep` between them.
pub open spec fn joined(v: Seq<Seq<char>>, sep: Seq<char>) -> Seq<char>
    decreases v.len(),
{
    if v.len() == 0 {
        Seq::empty()
    } else if v.len() == 1 {
        v[0]
    } else {
        joined(v.drop_last(), sep) + sep + v.last()
    }
}

pub open spec fn view_of(s: Option<&str>) -> Option<Seq<char>> {
    match s {
        Some(t) => Some(t@),
        None => None,
    }
}

pub open spec fn string_view(s: Option<String>) -> Option<Seq<char>> {
    match s {
        Some(t) => Some(t@),
        None => None,
    }
}

/// `String::push` adds the character at the end.
pub assume_specification[ String::push ](s: &mut String, c: char)
    ensures
        final(s)@ == old(s)@.push(c),
;

pub fn chars_of(s: &str) -> (r: Vec<char>)
    ensures
        r@ == s@,
{
    let mut out: Vec<char> = Vec::new();
    for c in it: s.chars()
        invariant
            out@ == s@.take(it.index()),
            it.seq() == s@,
    {
        out.push(c);
    }
    out
}

/// The text that the characters from `from` to `to` spell.
pub fn slice_text(s: &Vec<char>, from: usize, to: usize) -> (r: String)
    requires
        from <= to <= s.len(),
    ensures
        r@ == s@.subrange(from as int, to as int),
{
    let mut out = String::new();
    let mut i: usize = from;
    while i < to
        invariant
            from <= i <= to <= s.len(),
            out@ == s@.subrange(from as int, i as int),
        decreases to - i,
    {
        out.push(s[i]);
        i += 1;
    }
    out
}

/// The text that all of the characters spell.
pub fn text_of(s: &Vec<char>) -> (r: String)
    ensures
        r@ == s@,
{
    let r = slice_text(s, 0, s.len());
    assert(s@.subrange(0, s@.len() as int) =~= s@);
    r
}

/// The characters from `from` to `to`.
pub fn slice_chars(s: &Vec<char>, from: usize, to: usize) -> (r: Vec<char>)
    requires
        from <= to <= s.len(),
    ensures
        r@ == s@.subrange(from as int, to as int),
{
    let mut out: Vec<char> = Vec::new();
    let mut i: usize = from;
    while i < to
        invariant
            from <= i <= to <= s.len(),
            out@ == s@.subrange(from as int, i as int),
        decreases to - i,
    {
        out.push(s[i]);
        i += 1;
    }
    out
}

/// Whether `p` stands in `s` at position `i`.
pub fn stands_at(s: &Vec<char>, p: &Vec<char>, i: usize) -> (r: bool)
    ensures
        r == occurs_at(s@, p@, i as int),
{
    if i > s.len() || p.len() > s.len() - i {
        return false;
    }
    let mut k: usize = 0;
    while k < p.len()
        invariant
            k <= p.len(),
            i + p.len() <= s.len(),
            forall|j: int| 0 <= j < k ==> s@[i + j] == p@[j],
        decreases p.len() - k,
    {
        if s[i + k] != p[k] {
            assert(s@.subrange(i as int, i + p@.len())[k as int] != p@[k as int]);
            return false;
        }
        k += 1;
    }
    assert(s@.subrange(i as int, i + p@.len()) =~= p@);
    true
}

/// What `find_from` gives, unfolded: the first place, or that there is none.
pub proof fn lemma_find_from(s: Seq<char>, p: Seq<char>, from: int)
    requires
        0 <= from,
    ensures
        match find_from(s, p, from) {
            Some(i) => first_at(s, p, from, i),
            None => forall|i: int| from <= i ==> !occurs_at(s, p, i),
        },
{
    if exists|i: int| from <= i && occurs_at(s, p, i) {
        let w = choose|i: int| from <= i && occurs_at(s, p, i);
        lemma_least(s, p, from, w);
    }
}

proof fn lemma_least(s: Seq<char>, p: Seq<char>, from: int, w: int)
    requires
        from <= w,
        occurs_at(s, p, w),
    ensures
        exists|i: int| first_at(s, p, from, i),
    decreases w - from,
{
    if exists|j: int| from <= j < w && occurs_at(s, p, j) {
        let j = choose|j: int| from <= j < w && occurs_at(s, p, j);
        lemma_least(s, p, from, j);
    } else {
        assert(first_at(s, p, from, w));
    }
}

proof fn lemma_first_unique(s: Seq<char>, p: Seq<char>, from: int, i: int)
    requires
        0 <= from,
        first_at(s, p, from, i),
    ensures
        find_from(s, p, from) == Some(i),
{
    lemma_find_from(s, p, from);
    let k = find_from(s, p, from)->Some_0;
    assert(!(k < i));
    assert(!(i < k));
}

/// Where `p` first stands in `s`, no earlier than `from`.
pub fn find_at(s: &Vec<char>, p: &Vec<char>, from: usize) -> (r: Option<usize>)
    ensures
        match r {
            Some(i) => find_from(s@, p@, from as int) == Some(i as int) && i + p@.len() <= s@.len(),
            None => find_from(s@, p@, from as int) is None,
        },
        r is Some ==> first_at(s@, p@, from as int, r->Some_0 as int),
{
    let mut i: usize = from;
    while i < s.len()
        invariant
            from <= i,
            i <= s.len() || i == from,
            forall|j: int| from <= j < i ==> !occurs_at(s@, p@, j),
        decreases s.len() - i,
    {
        if stands_at(s, p, i) {
            proof {
                assert(first_at(s@, p@, from as int, i as int));
                lemma_first_unique(s@, p@, from as int, i as int);
            }
            return Some(i);
        }
        i += 1;
    }
    if stands_at(s, p, i) {
        proof {
            assert(first_at(s@, p@, from as int, i as int));
            lemma_first_unique(s@, p@, from as int, i as int);
        }
        return Some(i);
    }
    proof {
        lemma_find_from(s@, p@, from as int);
    }
    None
}

/// Whether `p` stands anywhere in `s`.
pub fn holds(s: &str, p: &str) -> (r: bool)
    ensures
        r == contains(s@, p@),
{
    let sv = chars_of(s);
    let pv = chars_of(p);
    let r = find_at(&sv, &pv, 0);
    proof {
        lemma_find_from(s@, p@, 0);
        if contains(s@, p@) {
            let i = choose|i: int| occurs_at(s@, p@, i);
            assert(0 <= i && occurs_at(s@, p@, i));
        }
    }
    r.is_some()
}

pub fn begins(s: &str, p: &str) -> (r: bool)
    ensures
        r == starts_with(s@, p@),
{
    let sv = chars_of(s);
    let pv = chars_of(p);
    stands_at(&sv, &pv, 0)
}

pub fn finishes(s: &str, p: &str) -> (r: bool)
    ensures
        r == ends_with(s@, p@),
{
    let sv = chars_of(s);
    let pv = chars_of(p);
    if pv.len() > sv.len() {
        return false;
    }
    stands_at(&sv, &pv, sv.len() - pv.len())
}

pub fn same(a: &str, b: &str) -> (r: bool)
    ensures
        r == (a@ == b@),
{
    let av = chars_of(a);
    let bv = chars_of(b);
    if av.len() != bv.len() {
        return false;
    }
    let r = stands_at(&av, &bv, 0);
    assert(av@.subrange(0, bv@.len() as int) =~= av@);
    r
}

pub fn char_is_space(c: char) -> (r: bool)
    ensures
        r == is_space(c),
{
    let n: u32 = c as u32;
    (0x9 <= n && n <= 0xd) || n == 0x20 || n == 0x85 || n == 0xa0 || n == 0x1680 || (0x2000 <= n
        && n <= 0x200a) || n == 0x2028 || n == 0x2029 || n == 0x202f || n == 0x205f || n == 0x3000
}

/// Puts the words of a text on one line.
pub fn one_line(s: &str) -> (r: String)
    ensures
        r@ == on_one_line(s@),
{
    let v = chars_of(s);
    let mut out = String::new();
    let mut any = false;
    let mut i: usize = 0;
    assert(out@ =~= on_one_line(v@.take(0)));
    while i < v.len()
        invariant
            i <= v.len(),
            v@ == s@,
            out@ == on_one_line(v@.take(i as int)),
            any == (out@.len() > 0),
        decreases v.len() - i,
    {
        let ghost now = v@.take(i + 1);
        assert(now.drop_last() =~= v@.take(i as int));
        assert(now.last() == v@[i as int]);
        if !char_is_space(v[i]) {
            if any && i > 0 && char_is_space(v[i - 1]) {
                out.push(' ');
            }
            out.push(v[i]);
            any = true;
        }
        i += 1;
    }
    assert(v@.take(i as int) =~= v@);
    out
}

pub proof fn lemma_on_one_line(s: Seq<char>)
    ensures
        is_one_line(on_one_line(s)),
    decreases s.len(),
{
    if s.len() > 0 {
        lemma_on_one_line(s.drop_last());
    }
}

pub fn char_lower(c: char) -> (r: char)
    ensures
        r == lower_char(c),
{
    if 'A' <= c && c <= 'Z' {
        ((c as u8) + 32) as char
    } else {
        c
    }
}

pub fn char_upper(c: char) -> (r: char)
    ensures
        r == upper_char(c),
{
    if 'a' <= c && c <= 'z' {
        ((c as u8) - 32) as char
    } else {
        c
    }
}

pub fn char_is_digit(c: char) -> (r: bool)
    ensures
        r == is_digit(c),
{
    '0' <= c && c <= '9'
}

/// The bounds of the text without the white space around it.
pub fn trim_bounds(s: &Vec<char>) -> (r: (usize, usize))
    ensures
        r.0 <= r.1 <= s@.len(),
        s@.subrange(r.0 as int, r.1 as int) == trimmed(s@),
{
    let mut a: usize = 0;
    assert(s@.skip(0) =~= s@);
    while a < s.len() && char_is_space(s[a])
        invariant
            a <= s.len(),
            trimmed_start(s@) == trimmed_start(s@.skip(a as int)),
        decreases s.len() - a,
    {
        assert(s@.skip(a as int).drop_first() =~= s@.skip(a + 1));
        a += 1;
    }
    assert(trimmed_start(s@) == s@.skip(a as int)) by {
        if a < s.len() {
            assert(s@.skip(a as int)[0] == s@[a as int]);
        }
    }
    let ghost t = s@.skip(a as int);
    let mut b: usize = s.len();
    assert(t.take(t.len() as int) =~= t);
    while a < b && char_is_space(s[b - 1])
        invariant
            a <= b <= s.len(),
            t == s@.skip(a as int),
            trimmed_end(t) == trimmed_end(t.take(b - a)),
        decreases b,
    {
        assert(t.take(b - a).drop_last() =~= t.take(b - a - 1));
        assert(t.take(b - a).last() == s@[b - 1]);
        b -= 1;
    }
    assert(trimmed_end(t) == t.take(b - a)) by {
        if a < b {
            assert(t.take(b - a).last() == s@[b - 1]);
        }
    }
    assert(t.take(b - a) =~= s@.subrange(a as int, b as int));
    (a, b)
}

pub fn trim(s: &str) -> (r: String)
    ensures
        r@ == trimmed(s@),
{
    let v = chars_of(s);
    let (a, b) = trim_bounds(&v);
    slice_text(&v, a, b)
}

/// The characters with their ASCII capitals made small.
pub fn lower_chars(v: &Vec<char>) -> (r: Vec<char>)
    ensures
        r@ == lowered(v@),
{
    let mut out: Vec<char> = Vec::new();
    let mut i: usize = 0;
    while i < v.len()
        invariant
            i <= v.len(),
            out@ == lowered(v@.take(i as int)),
        decreases v.len() - i,
    {
        out.push(char_lower(v[i]));
        i += 1;
        assert(lowered(v@.take(i as int)) =~= lowered(v@.take(i - 1)).push(lower_char(v@[i - 1])));
    }
    assert(v@.take(i as int) =~= v@);
    out
}

pub fn lower(s: &str) -> (r: String)
    ensures
        r@ == lowered(s@),
{
    let v = lower_chars(&chars_of(s));
    text_of(&v)
}

pub fn upper(s: &str) -> (r: String)
    ensures
        r@ == uppered(s@),
{
    let v = chars_of(s);
    let mut out = String::new();
    let mut i: usize = 0;
    while i < v.len()
        invariant
            i <= v.len(),
            out@ == uppered(v@.take(i as int)),
        decreases v.len() - i,
    {
        out.push(char_upper(v[i]));
        i += 1;
        assert(uppered(v@.take(i as int)) =~= uppered(v@.take(i - 1)).push(upper_char(v@[i - 1])));
    }
    assert(v@.take(i as int) =~= v@);
    out
}

/// Whether the two differ in nothing but the case of ASCII letters.
pub fn same_but_case(a: &str, b: &str) -> (r: bool)
    ensures
        r == (lowered(a@) == lowered(b@)),
{
    let x = lower(a);
    let y = lower(b);
    same(&x, &y)
}

pub fn split(s: &str, sep: char) -> (r: Vec<String>)
    ensures
        texts(r@) == split_on(s@, sep),
{
    let v = chars_of(s);
    let mut out: Vec<String> = Vec::new();
    let mut piece = String::new();
    let mut i: usize = 0;
    assert(texts(out@).push(piece@) =~= split_on(v@.take(0), sep));
    while i < v.len()
        invariant
            i <= v.len(),
            v@ == s@,
            texts(out@).push(piece@) == split_on(v@.take(i as int), sep),
        decreases v.len() - i,
    {
        let c = v[i];
        let ghost before = texts(out@).push(piece@);
        assert(v@.take(i + 1).drop_last() =~= v@.take(i as int));
        assert(v@.take(i + 1).last() == c);
        assert(before.drop_last() =~= texts(out@));
        if c == sep {
            out.push(piece);
            piece = String::new();
            assert(texts(out@) =~= before);
        } else {
            piece.push(c);
        }
        i += 1;
    }
    out.push(piece);
    assert(v@.take(i as int) =~= s@);
    assert(texts(out@) =~= split_on(s@, sep));
    out
}

pub fn decimal_text(n: u64) -> (r: String)
    ensures
        r@ == decimal(n as nat),
    decreases n,
{
    let d: u8 = (n % 10) as u8;
    let c: char = (48u8 + d) as char;
    if n < 10 {
        let mut out = String::new();
        out.push(c);
        assert(out@ =~= decimal(n as nat));
        out
    } else {
        let mut out = decimal_text(n / 10);
        out.push(c);
        out
    }
}

pub proof fn lemma_text_less_total(a: Seq<char>, b: Seq<char>)
    ensures
        a == b || text_less(a, b) || text_less(b, a),
        !(text_less(a, b) && text_less(b, a)),
        a == b ==> !text_less(a, b),
    decreases a.len(),
{
    if a.len() > 0 && b.len() > 0 && a[0] == b[0] {
        lemma_text_less_total(a.drop_first(), b.drop_first());
        assert(a =~= seq![a[0]] + a.drop_first());
        assert(b =~= seq![b[0]] + b.drop_first());
    } else if a.len() == 0 && b.len() == 0 {
        assert(a =~= b);
    }
}

pub proof fn lemma_text_less_transitive(a: Seq<char>, b: Seq<char>, c: Seq<char>)
    requires
        text_less(a, b),
        text_less(b, c),
    ensures
        text_less(a, c),
    decreases a.len(),
{
    if a.len() > 0 && b.len() > 0 && c.len() > 0 && a[0] == b[0] && b[0] == c[0] {
        lemma_text_less_transitive(a.drop_first(), b.drop_first(), c.drop_first());
    }
}

/// Whether `a` comes before `b`.
pub fn less(a: &str, b: &str) -> (r: bool)
    ensures
        r == text_less(a@, b@),
{
    let x = chars_of(a);
    let y = chars_of(b);
    let mut i: usize = 0;
    assert(x@.skip(0) =~= a@);
    assert(y@.skip(0) =~= b@);
    while i < x.len() && i < y.len()
        invariant
            i <= x.len(),
            i <= y.len(),
            text_less(a@, b@) == text_less(x@.skip(i as int), y@.skip(i as int)),
        decreases x.len() - i,
    {
        assert(x@.skip(i as int)[0] == x@[i as int]);
        assert(y@.skip(i as int)[0] == y@[i as int]);
        if x[i] != y[i] {
            return x[i] < y[i];
        }
        assert(x@.skip(i as int).drop_first() =~= x@.skip(i + 1));
        assert(y@.skip(i as int).drop_first() =~= y@.skip(i + 1));
        i += 1;
    }
    i < y.len()
}

/// Adds the text where it belongs in an ascending list, unless it is there.
pub fn insert_ascending(v: &mut Vec<String>, s: String)
    requires
        ascending(texts(old(v)@)),
    ensures
        ascending(texts(final(v)@)),
        forall|t: Seq<char>| #[trigger]
            texts(final(v)@).contains(t) <==> texts(old(v)@).contains(t) || t == s@,
{
    let mut i: usize = 0;
    let ghost start = v@;
    while i < v.len() && less(&v[i], &s)
        invariant
            i <= v.len(),
            v@ == start,
            forall|k: int| 0 <= k < i ==> text_less(#[trigger] texts(start)[k], s@),
        decreases v.len() - i,
    {
        assert(texts(start)[i as int] == v@[i as int]@);
        i += 1;
    }
    if i < v.len() && same(&v[i], &s) {
        assert(texts(start)[i as int] == s@);
        return;
    }
    let ghost word = s@;
    proof {
        assert forall|k: int| i <= k < start.len() implies text_less(word, #[trigger] texts(start)[k]) by {
            lemma_text_less_total(word, texts(start)[i as int]);
            if i < k {
                lemma_text_less_transitive(word, texts(start)[i as int], texts(start)[k]);
            }
        }
    }
    v.insert(i, s);
    proof {
        let now = texts(v@);
        assert(now =~= texts(start).insert(i as int, word));
        assert forall|a: int, b: int| 0 <= a < b < now.len() implies text_less(
            #[trigger] now[a],
            #[trigger] now[b],
        ) by {
            let ta = if a < i { a } else { a - 1 };
            let tb = if b < i { b } else { b - 1 };
            if a != i && b != i {
                assert(now[a] == texts(start)[ta]);
                assert(now[b] == texts(start)[tb]);
            } else if a == i {
                assert(now[b] == texts(start)[tb]);
            } else {
                assert(now[a] == texts(start)[ta]);
            }
        }
        assert forall|t: Seq<char>| #[trigger] now.contains(t) <==> texts(start).contains(t) || t
            == word by {
            if now.contains(t) {
                let k = choose|k: int| 0 <= k < now.len() && now[k] == t;
                if k < i {
                    assert(texts(start)[k] == t);
                } else if k > i {
                    assert(texts(start)[k - 1] == t);
                }
            }
            if texts(start).contains(t) {
                let k = choose|k: int| 0 <= k < start.len() && texts(start)[k] == t;
                if k < i {
                    assert(now[k] == t);
                } else {
                    assert(now[k + 1] == t);
                }
            }
            if t == word {
                assert(now[i as int] == t);
            }
        }
    }
}

/// Whether the list holds the text.
pub fn listed_in(v: &Vec<String>, s: &str) -> (r: bool)
    ensures
        r == texts(v@).contains(s@),
{
    let mut i: usize = 0;
    while i < v.len()
        invariant
            i <= v.len(),
            forall|k: int| 0 <= k < i ==> #[trigger] texts(v@)[k] != s@,
        decreases v.len() - i,
    {
        assert(texts(v@)[i as int] == v@[i as int]@);
        if same(&v[i], s) {
            return true;
        }
        i += 1;
    }
    false
}

pub fn join(v: &Vec<String>, sep: &str) -> (r: String)
    ensures
        r@ == joined(texts(v@), sep@),
{
    let mut out = String::new();
    let mut i: usize = 0;
    let ghost all = texts(v@);
    while i < v.len()
        invariant
            i <= v.len(),
            all == texts(v@),
            out@ == joined(all.take(i as int), sep@),
        decreases v.len() - i,
    {
        if i > 0 {
            out.append(sep);
        }
        out.append(&v[i]);
        i += 1;
        assert(all.take(i as int).drop_last() =~= all.take(i - 1));
        assert(all.take(i as int).last() == v@[i - 1]@);
    }
    assert(all.take(i as int) =~= all);
    out
}

pub fn copy_texts(v: &Vec<String>) -> (r: Vec<String>)
    ensures
        r@ == v@,
{
    let mut out: Vec<String> = Vec::new();
    let mut i: usize = 0;
    while i < v.len()
        invariant
            i <= v.len(),
            out@ == v@.take(i as int),
        decreases v.len() - i,
    {
        out.push(v[i].clone());
        i += 1;
        assert(out@ =~= v@.take(i as int));
    }
    assert(v@.take(i as int) =~= v@);
    out
}

/// The pieces between the occurrences of a separator, left to right.
pub open spec fn split_text(s: Seq<char>, sep: Seq<char>) -> Seq<Seq<char>>
    decreases s.len(),
{
    match find_from(s, sep, 0) {
        Some(k) => if 0 <= k && 0 < sep.len() && k + sep.len() <= s.len() {
            seq![s.subrange(0, k)] + split_text(s.subrange(k + sep.len(), s.len() as int), sep)
        } else {
            seq![s]
        },
        None => seq![s],
    }
}

/// What stands before and after the first occurrence of a separator.
pub open spec fn cut(s: Seq<char>, sep: Seq<char>) -> Option<(Seq<char>, Seq<char>)> {
    match find_from(s, sep, 0) {
        Some(k) => Some((s.subrange(0, k), s.subrange(k + sep.len(), s.len() as int))),
        None => None,
    }
}

/// How many characters stand before the first white space.
pub open spec fn word_len(s: Seq<char>) -> nat
    decreases s.len(),
{
    if s.len() == 0 || is_space(s[0]) {
        0
    } else {
        1 + word_len(s.drop_first())
    }
}

/// The first word, empty where there is none.
pub open spec fn first_word(s: Seq<char>) -> Seq<char> {
    let t = trimmed_start(s);
    t.take(word_len(t) as int)
}

/// What follows the first word.
pub open spec fn after_word(s: Seq<char>) -> Seq<char> {
    let t = trimmed_start(s);
    t.skip(word_len(t) as int)
}

/// The pieces between the occurrences of a separator, left to right.
pub fn split_at_text(s: &str, sep: &str) -> (r: Vec<String>)
    requires
        sep@.len() > 0,
    ensures
        texts(r@) == split_text(s@, sep@),
{
    let mark = chars_of(sep);
    let mut rest = chars_of(s);
    let mut out: Vec<String> = Vec::new();
    assert(texts(out@) =~= Seq::empty());
    assert(Seq::empty() + split_text(s@, sep@) =~= split_text(s@, sep@));
    loop
        invariant
            mark@ == sep@,
            sep@.len() > 0,
            split_text(s@, sep@) == texts(out@) + split_text(rest@, sep@),
        decreases rest@.len(),
    {
        let n = rest.len();
        match find_at(&rest, &mark, 0) {
            Some(k) => {
                let piece = slice_text(&rest, 0, k);
                let ghost word = piece@;
                let ghost before = out@;
                out.push(piece);
                assert(texts(out@) =~= texts(before).push(word));
                let next = slice_chars(&rest, k + mark.len(), n);
                assert(split_text(rest@, sep@) == seq![word] + split_text(next@, sep@));
                assert(texts(before) + (seq![word] + split_text(next@, sep@)) =~= texts(out@)
                    + split_text(next@, sep@));
                rest = next;
            },
            None => {
                let piece = text_of(&rest);
                let ghost word = piece@;
                let ghost before = out@;
                out.push(piece);
                assert(texts(out@) =~= texts(before) + seq![word]);
                return out;
            },
        }
    }
}

/// What stands before and after the first occurrence of a separator.
pub fn cut_at(s: &str, sep: &str) -> (r: Option<(String, String)>)
    ensures
        match r {
            Some((a, b)) => cut(s@, sep@) == Some((a@, b@)),
            None => cut(s@, sep@) is None,
        },
{
    let v = chars_of(s);
    let mark = chars_of(sep);
    let n = v.len();
    match find_at(&v, &mark, 0) {
        Some(k) => Some((slice_text(&v, 0, k), slice_text(&v, k + mark.len(), n))),
        None => None,
    }
}

/// The first word and what follows it.
pub fn take_word(s: &str) -> (r: (String, String))
    ensures
        r.0@ == first_word(s@),
        r.1@ == after_word(s@),
{
    let v = chars_of(s);
    let mut a: usize = 0;
    assert(s@.skip(0) =~= s@);
    while a < v.len() && char_is_space(v[a])
        invariant
            a <= v.len(),
            v@ == s@,
            trimmed_start(s@) == trimmed_start(s@.skip(a as int)),
        decreases v.len() - a,
    {
        assert(s@.skip(a as int).drop_first() =~= s@.skip(a + 1));
        a += 1;
    }
    let ghost t = s@.skip(a as int);
    assert(trimmed_start(s@) == t) by {
        if a < v.len() {
            assert(t[0] == v@[a as int]);
        }
    }
    let mut b: usize = a;
    assert(t.skip(0) =~= t);
    while b < v.len() && !char_is_space(v[b])
        invariant
            a <= b <= v.len(),
            v@ == s@,
            t == s@.skip(a as int),
            word_len(t) == (b - a) + word_len(t.skip(b - a)),
        decreases v.len() - b,
    {
        assert(t.skip(b - a)[0] == v@[b as int]);
        assert(t.skip(b - a).drop_first() =~= t.skip(b + 1 - a));
        b += 1;
    }
    assert(word_len(t) == b - a) by {
        if b < v.len() {
            assert(t.skip(b - a)[0] == v@[b as int]);
        }
    }
    assert(t.take(b - a) =~= s@.subrange(a as int, b as int));
    assert(t.skip(b - a) =~= s@.subrange(b as int, s@.len() as int));
    (slice_text(&v, a, b), slice_text(&v, b, v.len()))
}

// ------------------------------------------------------------------- laws

/// White space is these twenty-five characters and no other.
pub proof fn law_what_white_space_is(c: char)
    ensures
        is_space(c) <==> seq![
            '\t',
            '\n',
            '\u{b}',
            '\u{c}',
            '\r',
            ' ',
            '\u{85}',
            '\u{a0}',
            '\u{1680}',
            '\u{2000}',
            '\u{2001}',
            '\u{2002}',
            '\u{2003}',
            '\u{2004}',
            '\u{2005}',
            '\u{2006}',
            '\u{2007}',
            '\u{2008}',
            '\u{2009}',
            '\u{200a}',
            '\u{2028}',
            '\u{2029}',
            '\u{202f}',
            '\u{205f}',
            '\u{3000}',
        ].contains(c),
{
    let all = seq![
        '\t',
        '\n',
        '\u{b}',
        '\u{c}',
        '\r',
        ' ',
        '\u{85}',
        '\u{a0}',
        '\u{1680}',
        '\u{2000}',
        '\u{2001}',
        '\u{2002}',
        '\u{2003}',
        '\u{2004}',
        '\u{2005}',
        '\u{2006}',
        '\u{2007}',
        '\u{2008}',
        '\u{2009}',
        '\u{200a}',
        '\u{2028}',
        '\u{2029}',
        '\u{202f}',
        '\u{205f}',
        '\u{3000}',
    ];
    assert(all.len() == 25);
    assert(all[0] == '\t' && all[1] == '\n' && all[2] == '\u{b}' && all[3] == '\u{c}' && all[4]
        == '\r' && all[5] == ' ' && all[6] == '\u{85}' && all[7] == '\u{a0}' && all[8]
        == '\u{1680}');
    assert(all[9] == '\u{2000}' && all[10] == '\u{2001}' && all[11] == '\u{2002}' && all[12]
        == '\u{2003}' && all[13] == '\u{2004}' && all[14] == '\u{2005}' && all[15] == '\u{2006}'
        && all[16] == '\u{2007}' && all[17] == '\u{2008}' && all[18] == '\u{2009}' && all[19]
        == '\u{200a}');
    assert(all[20] == '\u{2028}' && all[21] == '\u{2029}' && all[22] == '\u{202f}' && all[23]
        == '\u{205f}' && all[24] == '\u{3000}');
}

/// Trimming takes white space off both ends, all of it and nothing else.
pub proof fn law_trimming_takes_off_the_ends(s: Seq<char>)
    ensures
        exists|a: int, b: int|
            {
                &&& 0 <= a <= b <= s.len()
                &&& trimmed(s) == #[trigger] s.subrange(a, b)
                &&& forall|i: int| 0 <= i < a ==> is_space(#[trigger] s[i])
                &&& forall|i: int| b <= i < s.len() ==> is_space(#[trigger] s[i])
                &&& a < b ==> !is_space(s[a]) && !is_space(s[b - 1])
            },
{
    lemma_trimmed_start(s);
    let t = trimmed_start(s);
    let a = s.len() - t.len();
    lemma_trimmed_end(t);
    let u = trimmed_end(t);
    let b = a + u.len();
    assert(s.subrange(a, b) =~= u);
    assert forall|i: int| b <= i < s.len() implies is_space(#[trigger] s[i]) by {
        assert(t[i - a] == s[i]);
    }
    if a < b {
        assert(u[0] == t[0]);
        assert(s[a] == t[0]);
        assert(u[u.len() - 1] == t[u.len() - 1]);
        assert(s[b - 1] == t[u.len() - 1]);
    }
}

proof fn lemma_trimmed_start(s: Seq<char>)
    ensures
        trimmed_start(s).len() <= s.len(),
        trimmed_start(s) == s.subrange(s.len() - trimmed_start(s).len(), s.len() as int),
        forall|i: int| 0 <= i < s.len() - trimmed_start(s).len() ==> is_space(#[trigger] s[i]),
        trimmed_start(s).len() > 0 ==> !is_space(trimmed_start(s)[0]),
    decreases s.len(),
{
    if s.len() > 0 && is_space(s[0]) {
        let rest = s.drop_first();
        lemma_trimmed_start(rest);
        let t = trimmed_start(s);
        assert(t =~= s.subrange(s.len() - t.len(), s.len() as int));
        assert forall|i: int| 0 <= i < s.len() - t.len() implies is_space(#[trigger] s[i]) by {
            if i > 0 {
                assert(rest[i - 1] == s[i]);
            }
        }
    } else {
        assert(s =~= s.subrange(0, s.len() as int));
    }
}

proof fn lemma_trimmed_end(s: Seq<char>)
    ensures
        trimmed_end(s).len() <= s.len(),
        trimmed_end(s) == s.take(trimmed_end(s).len() as int),
        forall|i: int| trimmed_end(s).len() <= i < s.len() ==> is_space(#[trigger] s[i]),
        trimmed_end(s).len() > 0 ==> !is_space(trimmed_end(s).last()),
    decreases s.len(),
{
    if s.len() > 0 && is_space(s.last()) {
        let front = s.drop_last();
        lemma_trimmed_end(front);
        let t = trimmed_end(s);
        assert(t =~= s.take(t.len() as int));
        assert forall|i: int| t.len() <= i < s.len() implies is_space(#[trigger] s[i]) by {
            if i < s.len() - 1 {
                assert(front[i] == s[i]);
            }
        }
    } else {
        assert(s =~= s.take(s.len() as int));
    }
}

/// Each of the twenty-six capitals has its small letter, and no other
/// character changes either way.
pub proof fn law_which_letters_have_two_cases(s: Seq<char>, i: int)
    requires
        0 <= i < s.len(),
    ensures
        lowered(s).len() == s.len(),
        uppered(s).len() == s.len(),
        forall|k: int|
            #![trigger "ABCDEFGHIJKLMNOPQRSTUVWXYZ"@[k]]
            0 <= k < 26 ==> {
                &&& s[i] == "ABCDEFGHIJKLMNOPQRSTUVWXYZ"@[k] ==> lowered(s)[i]
                    == "abcdefghijklmnopqrstuvwxyz"@[k] && uppered(s)[i] == s[i]
                &&& s[i] == "abcdefghijklmnopqrstuvwxyz"@[k] ==> uppered(s)[i]
                    == "ABCDEFGHIJKLMNOPQRSTUVWXYZ"@[k] && lowered(s)[i] == s[i]
            },
        !"ABCDEFGHIJKLMNOPQRSTUVWXYZ"@.contains(s[i]) ==> lowered(s)[i] == s[i],
        !"abcdefghijklmnopqrstuvwxyz"@.contains(s[i]) ==> uppered(s)[i] == s[i],
{
    reveal_strlit("ABCDEFGHIJKLMNOPQRSTUVWXYZ");
    reveal_strlit("abcdefghijklmnopqrstuvwxyz");
    let big = "ABCDEFGHIJKLMNOPQRSTUVWXYZ"@;
    let small = "abcdefghijklmnopqrstuvwxyz"@;
    let c = s[i];
    assert forall|k: int| 0 <= k < 26 implies #[trigger] big[k] == (65 + k) as char by {}
    assert forall|k: int| 0 <= k < 26 implies #[trigger] small[k] == (97 + k) as char by {}
    if 'A' <= c <= 'Z' {
        assert(big[c as u32 - 65] == c);
    }
    if 'a' <= c <= 'z' {
        assert(small[c as u32 - 97] == c);
    }
}

/// Splitting loses nothing: no piece holds the separator, and the pieces with
/// the separator between them are the text again.
pub proof fn law_splitting_loses_nothing(s: Seq<char>, sep: char)
    ensures
        split_on(s, sep).len() > 0,
        joined(split_on(s, sep), seq![sep]) == s,
        forall|i: int|
            0 <= i < split_on(s, sep).len() ==> !(#[trigger] split_on(s, sep)[i]).contains(sep),
    decreases s.len(),
{
    if s.len() > 0 {
        let front = s.drop_last();
        law_splitting_loses_nothing(front, sep);
        let rest = split_on(front, sep);
        let all = split_on(s, sep);
        let one = seq![sep];
        if s.last() == sep {
            assert(all.drop_last() =~= rest);
            assert(joined(all, one) == joined(rest, one) + one + Seq::empty());
            assert(joined(all, one) =~= s);
            assert forall|i: int| 0 <= i < all.len() implies !(#[trigger] all[i]).contains(sep) by {
                if i < rest.len() {
                    assert(all[i] == rest[i]);
                }
            }
        } else {
            assert(all.drop_last() =~= rest.drop_last());
            assert(all.last() == rest.last().push(s.last()));
            if rest.len() > 1 {
                assert(joined(all, one) =~= joined(rest, one).push(s.last()));
            } else {
                assert(joined(all, one) =~= joined(rest, one).push(s.last()));
            }
            assert(joined(all, one) =~= s);
            assert forall|i: int| 0 <= i < all.len() implies !(#[trigger] all[i]).contains(sep) by {
                if i < rest.len() - 1 {
                    assert(all[i] == rest[i]);
                } else {
                    let last = rest.last();
                    assert(!rest[rest.len() - 1].contains(sep));
                    assert(all[i] == last.push(s.last()));
                    if all[i].contains(sep) {
                        let k = choose|k: int| 0 <= k < all[i].len() && all[i][k] == sep;
                        if k < last.len() {
                            assert(last[k] == sep);
                            assert(last.contains(sep));
                        }
                    }
                }
            }
        }
    }
}

/// A numeral is written digit by digit in base ten, with no zero in front.
pub proof fn law_how_a_number_is_written(tens: nat, digit: nat)
    requires
        digit < 10,
    ensures
        tens > 0 ==> decimal(10 * tens + digit) == decimal(tens).push("0123456789"@[digit as int]),
        decimal(digit) == seq!["0123456789"@[digit as int]],
        tens > 0 ==> decimal(tens)[0] != '0',
        decimal(tens).len() > 0,
    decreases tens,
{
    reveal_strlit("0123456789");
    let all = "0123456789"@;
    assert forall|k: int| 0 <= k < 10 implies #[trigger] all[k] == (48 + k) as char by {}
    assert(digit_char(digit) == all[digit as int]);
    let n: nat = 10 * tens + digit;
    assert(n / 10 == tens && n % 10 == digit);
    if tens >= 10 {
        law_how_a_number_is_written(tens / 10, digit);
        assert(decimal(tens)[0] == decimal(tens / 10)[0]);
    } else if tens > 0 {
        assert(digit_char(tens) == all[tens as int]);
    }
}

/// White space within a text puts one blank between what stands before it and
/// what stands behind, and none where either is blank. Text without white
/// space is on one line as it is.
pub proof fn law_white_space_is_one_blank(a: Seq<char>, c: char, b: Seq<char>)
    requires
        is_space(c),
    ensures
        on_one_line(a.push(c) + b) == if on_one_line(a).len() == 0 {
            on_one_line(b)
        } else if on_one_line(b).len() == 0 {
            on_one_line(a)
        } else {
            on_one_line(a).push(' ') + on_one_line(b)
        },
        (forall|i: int| 0 <= i < b.len() ==> !is_space(#[trigger] b[i])) ==> on_one_line(b) == b,
    decreases b.len(),
{
    let s = a.push(c) + b;
    if b.len() == 0 {
        assert(s =~= a.push(c));
        assert(s.drop_last() =~= a);
    } else {
        let front = b.drop_last();
        law_white_space_is_one_blank(a, c, front);
        assert(s.drop_last() =~= a.push(c) + front);
        assert(s.last() == b.last());
        assert(s[s.len() - 2] == (if b.len() > 1 {
            b[b.len() - 2]
        } else {
            c
        }));
        if b.len() > 1 {
            lemma_blank_line(front);
            lemma_blank_line(b);
        } else {
            assert(on_one_line(front) =~= Seq::empty());
        }
        let x = on_one_line(a);
        let y = on_one_line(front);
        let z = on_one_line(b);
        if x.len() > 0 {
            if is_space(b.last()) {
            } else if y.len() > 0 {
                assert(on_one_line(s) =~= x.push(' ') + z);
            } else {
                assert(z =~= seq![b.last()]);
                if b.len() > 1 {
                    assert(is_space(front.last()));
                    assert(front.last() == b[b.len() - 2]);
                }
                assert(on_one_line(s) =~= x.push(' ') + z);
            }
        }
        if forall|i: int| 0 <= i < b.len() ==> !is_space(#[trigger] b[i]) {
            assert forall|i: int| 0 <= i < front.len() implies !is_space(#[trigger] front[i]) by {
                assert(front[i] == b[i]);
            }
            assert(!is_space(b[b.len() - 1]));
            if b.len() > 1 {
                assert(!is_space(b[b.len() - 2]));
            }
            assert(on_one_line(b) =~= b);
        }
    }
}

/// A text of which nothing is left on one line ends in white space.
proof fn lemma_blank_line(s: Seq<char>)
    requires
        s.len() > 0,
    ensures
        on_one_line(s).len() == 0 ==> is_space(s.last()),
{
}

/// Text stands before other text by the first character in which they differ,
/// and a text before all that begin with it.
pub proof fn law_how_texts_are_ordered(common: Seq<char>, a: Seq<char>, b: Seq<char>)
    ensures
        b.len() > 0 ==> text_less(common, common + b),
        !text_less(common + b, common),
        a.len() > 0 && b.len() > 0 && a[0] != b[0] ==> (text_less(common + a, common + b)
            <==> a[0] < b[0]),
    decreases common.len(),
{
    if common.len() == 0 {
        assert(common + a =~= a);
        assert(common + b =~= b);
    } else {
        let rest = common.drop_first();
        law_how_texts_are_ordered(rest, a, b);
        assert((common + a).drop_first() =~= rest + a);
        assert((common + b).drop_first() =~= rest + b);
    }
}

/// A cut is made at the first place the separator stands: the parts and the
/// separator between them are the text, and the separator does not stand
/// earlier. There is none exactly where the separator stands nowhere.
pub proof fn law_a_cut_is_made_at_the_first(s: Seq<char>, sep: Seq<char>)
    ensures
        match cut(s, sep) {
            Some((a, b)) => a + sep + b == s && forall|i: int|
                0 <= i < a.len() ==> #[trigger] s.subrange(i, i + sep.len()) != sep || i + sep.len()
                    > s.len(),
            None => forall|i: int|
                0 <= i <= s.len() - sep.len() ==> #[trigger] s.subrange(i, i + sep.len()) != sep,
        },
{
    lemma_find_from(s, sep, 0);
    match find_from(s, sep, 0) {
        Some(k) => {
            assert(occurs_at(s, sep, k));
            assert(s.subrange(0, k) + sep + s.subrange(k + sep.len(), s.len() as int) =~= s);
            assert forall|i: int| 0 <= i < k implies #[trigger] s.subrange(i, i + sep.len()) != sep
                || i + sep.len() > s.len() by {
                assert(!occurs_at(s, sep, i));
            }
        },
        None => {
            assert forall|i: int| 0 <= i <= s.len() - sep.len() implies #[trigger] s.subrange(
                i,
                i + sep.len(),
            ) != sep by {
                assert(!occurs_at(s, sep, i));
            }
        },
    }
}

/// A text begins with another, ends with it or holds it exactly where it is
/// that other with something, or nothing, around it.
pub proof fn law_what_holding_a_text_means(before: Seq<char>, p: Seq<char>, after: Seq<char>)
    ensures
        starts_with(p + after, p),
        ends_with(before + p, p),
        contains(before + p + after, p),
{
    assert((p + after).subrange(0, p.len() as int) =~= p);
    assert((before + p).subrange(before.len() as int, (before.len() + p.len()) as int) =~= p);
    let s = before + p + after;
    assert(s.subrange(before.len() as int, (before.len() + p.len()) as int) =~= p);
    assert(occurs_at(s, p, before.len() as int));
}

/// And the other way about.
pub proof fn law_what_is_held_stands_there(s: Seq<char>, p: Seq<char>)
    ensures
        starts_with(s, p) ==> exists|after: Seq<char>| s == #[trigger] (p + after),
        ends_with(s, p) ==> exists|before: Seq<char>| s == #[trigger] (before + p),
        contains(s, p) ==> exists|before: Seq<char>, after: Seq<char>|
            s == #[trigger] (before + p + after),
{
    if starts_with(s, p) {
        let after = s.skip(p.len() as int);
        assert(s =~= p + after) by {
            assert forall|i: int| 0 <= i < p.len() implies s[i] == p[i] by {
                assert(s.subrange(0, p.len() as int)[i] == s[i]);
            }
        }
    }
    if ends_with(s, p) {
        let k = s.len() - p.len();
        let before = s.take(k);
        assert(s =~= before + p) by {
            assert forall|i: int| 0 <= i < p.len() implies s[k + i] == p[i] by {
                assert(s.subrange(k, k + p.len())[i] == s[k + i]);
            }
        }
    }
    if contains(s, p) {
        let k = choose|i: int| occurs_at(s, p, i);
        let before = s.take(k);
        let after = s.skip(k + p.len());
        assert(s =~= before + p + after) by {
            assert forall|i: int| 0 <= i < p.len() implies s[k + i] == p[i] by {
                assert(s.subrange(k, k + p.len())[i] == s[k + i]);
            }
        }
    }
}

/// The first word is what stands before the first white space, once that in
/// front is gone; what is left begins with white space or is empty.
pub proof fn law_what_the_first_word_is(s: Seq<char>)
    ensures
        trimmed_start(s) == first_word(s) + after_word(s),
        forall|i: int| 0 <= i < first_word(s).len() ==> !is_space(#[trigger] first_word(s)[i]),
        after_word(s).len() > 0 ==> is_space(after_word(s)[0]),
{
    let t = trimmed_start(s);
    lemma_word_len(t);
    assert(t =~= t.take(word_len(t) as int) + t.skip(word_len(t) as int));
}

proof fn lemma_word_len(t: Seq<char>)
    ensures
        word_len(t) <= t.len(),
        forall|i: int| 0 <= i < word_len(t) ==> !is_space(#[trigger] t[i]),
        word_len(t) < t.len() ==> is_space(t[word_len(t) as int]),
    decreases t.len(),
{
    if t.len() > 0 && !is_space(t[0]) {
        let rest = t.drop_first();
        lemma_word_len(rest);
        assert forall|i: int| 0 <= i < word_len(t) implies !is_space(#[trigger] t[i]) by {
            if i > 0 {
                assert(rest[i - 1] == t[i]);
            }
        }
    }
}

proof fn lemma_joined_front(first: Seq<char>, rest: Seq<Seq<char>>, sep: Seq<char>)
    requires
        rest.len() > 0,
    ensures
        joined(seq![first] + rest, sep) == first + sep + joined(rest, sep),
    decreases rest.len(),
{
    let all = seq![first] + rest;
    assert(all.last() == rest.last());
    if rest.len() == 1 {
        assert(all.drop_last() =~= seq![first]);
        assert(joined(all.drop_last(), sep) == first);
        assert(joined(rest, sep) == rest[0]);
        assert(all.len() == 2);
        assert(joined(all, sep) == first + sep + rest[0]);
    } else {
        lemma_joined_front(first, rest.drop_last(), sep);
        assert(all.drop_last() =~= seq![first] + rest.drop_last());
        assert(joined(all, sep) =~= first + sep + joined(rest, sep));
    }
}

/// Splitting by a text loses nothing either: no piece holds the separator, and
/// the pieces with the separator between them are the text again.
pub proof fn law_splitting_by_a_text_loses_nothing(s: Seq<char>, sep: Seq<char>)
    requires
        sep.len() > 0,
    ensures
        split_text(s, sep).len() > 0,
        joined(split_text(s, sep), sep) == s,
        forall|i: int|
            0 <= i < split_text(s, sep).len() ==> !contains(#[trigger] split_text(s, sep)[i], sep),
    decreases s.len(),
{
    lemma_find_from(s, sep, 0);
    let all = split_text(s, sep);
    match find_from(s, sep, 0) {
        None => {
            assert(all =~= seq![s]);
            assert forall|i: int| 0 <= i < all.len() implies !contains(#[trigger] all[i], sep) by {
                assert(all[i] == s);
                if contains(s, sep) {
                    let k = choose|k: int| occurs_at(s, sep, k);
                    assert(!occurs_at(s, sep, k));
                }
            }
        },
        Some(k) => {
            let first = s.subrange(0, k);
            let rest = s.subrange(k + sep.len(), s.len() as int);
            law_splitting_by_a_text_loses_nothing(rest, sep);
            let more = split_text(rest, sep);
            assert(all == seq![first] + more);
            lemma_joined_front(first, more, sep);
            assert(first + sep + rest =~= s) by {
                assert(s.subrange(k, k + sep.len()) == sep);
            }
            assert(!contains(first, sep)) by {
                if contains(first, sep) {
                    let j = choose|j: int| occurs_at(first, sep, j);
                    assert(first.subrange(j, j + sep.len()) =~= s.subrange(j, j + sep.len()));
                    assert(occurs_at(s, sep, j));
                }
            }
            assert forall|i: int| 0 <= i < all.len() implies !contains(#[trigger] all[i], sep) by {
                if i > 0 {
                    assert(all[i] == more[i - 1]);
                }
            }
        },
    }
}

} // verus!
