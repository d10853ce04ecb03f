//! IP addresses: their textual forms, and which of them are internal.
use vstd::prelude::*;

use crate::text::{
    chars_of, decimal, decimal_text, find_at, find_from, is_digit, slice_text, split, split_on,
    texts,
};

verus! {

/// An IP address, as its bytes in network order.
#[derive(Debug, Clone, Copy, PartialEq, Eq)]
pub enum IpAddr {
    V4([u8; 4]),
    V6([u8; 16]),
}

/// What an [`IpAddr`] is.
pub enum IpView {
    V4(Seq<u8>),
    V6(Seq<u8>),
}

impl View for IpAddr {
    type V = IpView;

    open spec fn view(&self) -> IpView {
        match self {
            IpAddr::V4(b) => IpView::V4(b@),
            IpAddr::V6(b) => IpView::V6(b@),
        }
    }
}

/// 127.0.0.0/8.
pub open spec fn is_loopback_v4(b: Seq<u8>) -> bool {
    b[0] == 127
}

/// Loopback, the private ranges of RFC 1918, link-local, unspecified,
/// broadcast, and carrier-grade NAT (100.64.0.0/10).
pub open spec fn is_internal_v4(b: Seq<u8>) -> bool {
    ||| is_loopback_v4(b)
    ||| b[0] == 10
    ||| b[0] == 172 && 16 <= b[1] < 32
    ||| b[0] == 192 && b[1] == 168
    ||| b[0] == 169 && b[1] == 254
    ||| b == seq![0u8, 0u8, 0u8, 0u8]
    ||| b == seq![255u8, 255u8, 255u8, 255u8]
    ||| b[0] == 100 && 64 <= b[1] < 128
}

/// The first ten bytes are zero and the next two are ones: an IPv4 address in
/// IPv6 dress.
pub open spec fn is_mapped(b: Seq<u8>) -> bool {
    (forall|i: int| 0 <= i < 10 ==> #[trigger] b[i] == 0) && b[10] == 0xff && b[11] == 0xff
}

/// `::1`.
pub open spec fn is_loopback_v6(b: Seq<u8>) -> bool {
    (forall|i: int| 0 <= i < 15 ==> #[trigger] b[i] == 0) && b[15] == 1
}

/// The address belongs to a space only something on this machine or this
/// network should be able to reach.
pub open spec fn is_internal(a: IpView) -> bool {
    match a {
        IpView::V4(b) => is_internal_v4(b),
        IpView::V6(b) => if is_mapped(b) {
            is_internal_v4(b.subrange(12, 16))
        } else {
            ||| is_loopback_v6(b)
            ||| (forall|i: int| 0 <= i < 16 ==> #[trigger] b[i] == 0)
            // fc00::/7, unique-local
            ||| b[0] == 0xfc || b[0] == 0xfd
            // fe80::/10, link-local
            ||| b[0] == 0xfe && 0x80 <= b[1] < 0xc0
        },
    }
}

fn internal_v4(a: u8, b: u8, c: u8, d: u8) -> (r: bool)
    ensures
        r == is_internal_v4(seq![a, b, c, d]),
{
    let r = a == 127 || a == 10 || (a == 172 && 16 <= b && b < 32) || (a == 192 && b == 168) || (a
        == 169 && b == 254) || (a == 0 && b == 0 && c == 0 && d == 0) || (a == 255 && b == 255 && c
        == 255 && d == 255) || (a == 100 && 64 <= b && b < 128);
    proof {
        let s = seq![a, b, c, d];
        assert(s[0] == a && s[1] == b && s[2] == c && s[3] == d);
        let zero = seq![0u8, 0u8, 0u8, 0u8];
        let ones = seq![255u8, 255u8, 255u8, 255u8];
        if a == 0 && b == 0 && c == 0 && d == 0 {
            assert(s =~= zero);
        }
        if s == zero {
            assert(s[0] == zero[0] && s[1] == zero[1] && s[2] == zero[2] && s[3] == zero[3]);
        }
        if a == 255 && b == 255 && c == 255 && d == 255 {
            assert(s =~= ones);
        }
        if s == ones {
            assert(s[0] == ones[0] && s[1] == ones[1] && s[2] == ones[2] && s[3] == ones[3]);
        }
    }
    r
}

/// Whether the first `n` bytes are zero.
fn zeros(b: &[u8; 16], n: usize) -> (r: bool)
    requires
        n <= 16,
    ensures
        r == (forall|i: int| 0 <= i < n ==> #[trigger] b@[i] == 0),
{
    let mut i: usize = 0;
    while i < n
        invariant
            i <= n <= 16,
            forall|k: int| 0 <= k < i ==> #[trigger] b@[k] == 0,
        decreases n - i,
    {
        if b[i] != 0 {
            return false;
        }
        i += 1;
    }
    true
}

/// Whether an address belongs to a space only something on this machine or
/// this network should be able to reach.
///
/// Loopback, the unspecified address, link-local (which carries the cloud
/// metadata endpoint at `169.254.169.254`), and the RFC 1918 private ranges.
/// IPv6 unique-local and its IPv4-mapped forms are included, or the same
/// address reached by a different spelling would answer differently.
pub fn is_internal_address(addr: IpAddr) -> (r: bool)
    ensures
        r == is_internal(addr@),
{
    match addr {
        IpAddr::V4(b) => {
            assert(b@ =~= seq![b@[0], b@[1], b@[2], b@[3]]);
            internal_v4(b[0], b[1], b[2], b[3])
        },
        IpAddr::V6(b) => {
            if zeros(&b, 10) && b[10] == 0xff && b[11] == 0xff {
                assert(b@.subrange(12, 16) =~= seq![b@[12], b@[13], b@[14], b@[15]]);
                return internal_v4(b[12], b[13], b[14], b[15]);
            }
            (zeros(&b, 15) && b[15] == 1) || zeros(&b, 16) || b[0] == 0xfc || b[0] == 0xfd || (b[0]
                == 0xfe && 0x80 <= b[1] && b[1] < 0xc0)
        },
    }
}

// ---------------------------------------------------------------- literals

/// The value of a decimal numeral.
pub open spec fn decimal_value(s: Seq<char>) -> nat
    decreases s.len(),
{
    if s.len() == 0 {
        0
    } else {
        decimal_value(s.drop_last()) * 10 + (s.last() as u32 - '0' as u32) as nat
    }
}

/// One number of a dotted quad: up to 255, in decimal, no leading zero.
pub open spec fn is_octet(s: Seq<char>) -> bool {
    &&& 1 <= s.len() <= 3
    &&& forall|i: int| 0 <= i < s.len() ==> is_digit(#[trigger] s[i])
    &&& s.len() > 1 ==> s[0] != '0'
    &&& decimal_value(s) <= 255
}

/// A dotted quad, read.
pub open spec fn read_v4(s: Seq<char>) -> Option<Seq<u8>> {
    let parts = split_on(s, '.');
    if parts.len() == 4 && is_octet(parts[0]) && is_octet(parts[1]) && is_octet(parts[2])
        && is_octet(parts[3]) {
        Some(
            seq![
                decimal_value(parts[0]) as u8,
                decimal_value(parts[1]) as u8,
                decimal_value(parts[2]) as u8,
                decimal_value(parts[3]) as u8,
            ],
        )
    } else {
        None
    }
}

pub open spec fn is_hex(c: char) -> bool {
    is_digit(c) || 'a' <= c <= 'f' || 'A' <= c <= 'F'
}

pub open spec fn hex_digit(c: char) -> nat {
    if is_digit(c) {
        (c as u32 - '0' as u32) as nat
    } else if 'a' <= c <= 'f' {
        (c as u32 - 'a' as u32 + 10) as nat
    } else {
        (c as u32 - 'A' as u32 + 10) as nat
    }
}

pub open spec fn hex_value(s: Seq<char>) -> nat
    decreases s.len(),
{
    if s.len() == 0 {
        0
    } else {
        hex_value(s.drop_last()) * 16 + hex_digit(s.last())
    }
}

/// One group of an IPv6 address: up to four hexadecimal digits.
pub open spec fn is_group(s: Seq<char>) -> bool {
    1 <= s.len() <= 4 && forall|i: int| 0 <= i < s.len() ==> is_hex(#[trigger] s[i])
}

/// The two bytes of a group.
pub open spec fn group_bytes(s: Seq<char>) -> Seq<u8> {
    seq![(hex_value(s) / 256) as u8, (hex_value(s) % 256) as u8]
}

/// The bytes that groups between colons spell. The last may be a dotted quad
/// where `quad` says so.
pub open spec fn read_groups(parts: Seq<Seq<char>>, quad: bool) -> Option<Seq<u8>>
    decreases parts.len(),
{
    if parts.len() == 0 {
        Some(Seq::empty())
    } else {
        match read_groups(parts.drop_last(), false) {
            None => None,
            Some(before) => if is_group(parts.last()) {
                Some(before + group_bytes(parts.last()))
            } else if quad && read_v4(parts.last()) is Some {
                Some(before + read_v4(parts.last())->Some_0)
            } else {
                None
            },
        }
    }
}

/// The groups of one side of a `::`, which may have none.
pub open spec fn read_side(s: Seq<char>, quad: bool) -> Option<Seq<u8>> {
    if s.len() == 0 {
        Some(Seq::empty())
    } else {
        read_groups(split_on(s, ':'), quad)
    }
}

/// `n` zero bytes.
pub open spec fn zero_bytes(n: int) -> Seq<u8> {
    Seq::new(n as nat, |i: int| 0u8)
}

/// An IPv6 address, read: eight groups, or fewer around one `::` that stands
/// for at least one group of zeros.
pub open spec fn read_v6(s: Seq<char>) -> Option<Seq<u8>> {
    match find_from(s, "::"@, 0) {
        None => match read_side(s, true) {
            Some(bytes) => if bytes.len() == 16 {
                Some(bytes)
            } else {
                None
            },
            None => None,
        },
        Some(k) => match (read_side(s.subrange(0, k), false), read_side(
            s.subrange(k + 2, s.len() as int),
            true,
        )) {
            (Some(head), Some(tail)) => if head.len() + tail.len() <= 14 {
                Some(head + zero_bytes(16 - head.len() - tail.len()) + tail)
            } else {
                None
            },
            _ => None,
        },
    }
}

/// The address that a literal spells.
pub open spec fn read_ip(s: Seq<char>) -> Option<IpView> {
    if read_v4(s) is Some {
        Some(IpView::V4(read_v4(s)->Some_0))
    } else if read_v6(s) is Some {
        Some(IpView::V6(read_v6(s)->Some_0))
    } else {
        None
    }
}

/// The value of one number of a dotted quad.
fn octet(s: &str) -> (r: Option<u8>)
    ensures
        r is Some <==> is_octet(s@),
        r is Some ==> r->Some_0 == decimal_value(s@),
{
    let v = chars_of(s);
    if v.len() == 0 || v.len() > 3 || (v.len() > 1 && v[0] == '0') {
        return None;
    }
    let mut n: u32 = 0;
    let mut i: usize = 0;
    while i < v.len()
        invariant
            i <= v.len() <= 3,
            v@ == s@,
            n == decimal_value(v@.take(i as int)),
            i == 0 ==> n == 0,
            i <= 1 ==> n <= 9,
            i <= 2 ==> n <= 99,
            n <= 999,
            forall|k: int| 0 <= k < i ==> is_digit(#[trigger] v@[k]),
        decreases v.len() - i,
    {
        let c = v[i];
        if c < '0' || c > '9' {
            assert(!is_digit(v@[i as int]));
            return None;
        }
        assert(v@.take(i + 1).drop_last() =~= v@.take(i as int));
        assert(v@.take(i + 1).last() == c);
        n = n * 10 + (c as u32 - '0' as u32);
        i += 1;
    }
    assert(v@.take(i as int) =~= s@);
    if n <= 255 {
        Some(n as u8)
    } else {
        None
    }
}

fn parse_v4(s: &str) -> (r: Option<[u8; 4]>)
    ensures
        r is Some <==> read_v4(s@) is Some,
        r is Some ==> r->Some_0@ == read_v4(s@)->Some_0,
{
    let parts = split(s, '.');
    if parts.len() != 4 {
        return None;
    }
    proof {
        assert(texts(parts@)[0] == parts@[0]@);
        assert(texts(parts@)[1] == parts@[1]@);
        assert(texts(parts@)[2] == parts@[2]@);
        assert(texts(parts@)[3] == parts@[3]@);
    }
    match (octet(&parts[0]), octet(&parts[1]), octet(&parts[2]), octet(&parts[3])) {
        (Some(a), Some(b), Some(c), Some(d)) => {
            let out: [u8; 4] = [a, b, c, d];
            assert(out@ =~= read_v4(s@)->Some_0);
            Some(out)
        },
        _ => None,
    }
}

/// The value of one group.
fn group(s: &str) -> (r: Option<u16>)
    ensures
        r is Some <==> is_group(s@),
        r is Some ==> r->Some_0 == hex_value(s@),
{
    let v = chars_of(s);
    if v.len() == 0 || v.len() > 4 {
        return None;
    }
    let mut n: u32 = 0;
    let mut i: usize = 0;
    while i < v.len()
        invariant
            i <= v.len() <= 4,
            v@ == s@,
            n == hex_value(v@.take(i as int)),
            i == 0 ==> n == 0,
            i <= 1 ==> n <= 0xf,
            i <= 2 ==> n <= 0xff,
            i <= 3 ==> n <= 0xfff,
            n <= 0xffff,
            forall|k: int| 0 <= k < i ==> is_hex(#[trigger] v@[k]),
        decreases v.len() - i,
    {
        let c = v[i];
        let d: u32 = if '0' <= c && c <= '9' {
            c as u32 - '0' as u32
        } else if 'a' <= c && c <= 'f' {
            c as u32 - 'a' as u32 + 10
        } else if 'A' <= c && c <= 'F' {
            c as u32 - 'A' as u32 + 10
        } else {
            assert(!is_hex(v@[i as int]));
            return None;
        };
        assert(v@.take(i + 1).drop_last() =~= v@.take(i as int));
        assert(v@.take(i + 1).last() == c);
        n = n * 16 + d;
        i += 1;
    }
    assert(v@.take(i as int) =~= s@);
    Some(n as u16)
}

proof fn lemma_groups_prefix(parts: Seq<Seq<char>>, quad: bool, n: int)
    requires
        0 <= n < parts.len(),
        read_groups(parts.take(n), false) is None,
    ensures
        read_groups(parts, quad) is None,
    decreases parts.len() - n,
{
    if n == parts.len() - 1 {
        assert(parts.drop_last() =~= parts.take(n));
    } else {
        assert(parts.take(n + 1).drop_last() =~= parts.take(n));
        assert(read_groups(parts.take(n + 1), false) is None);
        lemma_groups_prefix(parts, quad, n + 1);
    }
}

fn parse_side(s: &str, quad: bool) -> (r: Option<Vec<u8>>)
    ensures
        r is Some <==> read_side(s@, quad) is Some,
        r is Some ==> r->Some_0@ == read_side(s@, quad)->Some_0,
{
    let mut out: Vec<u8> = Vec::new();
    if s.is_empty() {
        return Some(out);
    }
    let parts = split(s, ':');
    let ghost all = texts(parts@);
    let mut i: usize = 0;
    assert(all.take(0) =~= Seq::empty());
    while i < parts.len()
        invariant
            i <= parts.len(),
            all == texts(parts@),
            all == split_on(s@, ':'),
            s@.len() > 0,
            i < parts.len() ==> read_groups(all.take(i as int), false) == Some(out@),
            i == parts.len() ==> read_groups(all.take(i as int), quad) == Some(out@),
        decreases parts.len() - i,
    {
        let last = i + 1 == parts.len();
        proof {
            assert(all.take(i + 1).drop_last() =~= all.take(i as int));
            assert(all.take(i + 1).last() == parts@[i as int]@);
        }
        if let Some(n) = group(&parts[i]) {
            out.push((n / 256) as u8);
            out.push((n % 256) as u8);
            proof {
                let before = read_groups(all.take(i as int), false)->Some_0;
                assert(out@ =~= before + group_bytes(parts@[i as int]@));
            }
        } else {
            if !(quad && last) {
                proof {
                    if last {
                        assert(all.take(i + 1) =~= all);
                    } else {
                        assert(read_groups(all.take(i + 1), false) is None);
                        lemma_groups_prefix(all, quad, i + 1);
                    }
                }
                return None;
            }
            match parse_v4(&parts[i]) {
                Some(b) => {
                    out.push(b[0]);
                    out.push(b[1]);
                    out.push(b[2]);
                    out.push(b[3]);
                    proof {
                        let before = read_groups(all.take(i as int), false)->Some_0;
                        assert(out@ =~= before + b@);
                    }
                },
                None => {
                    assert(all.take(i + 1) =~= all);
                    return None;
                },
            }
        }
        i += 1;
    }
    proof {
        assert(all.take(i as int) =~= all);
        if parts.len() == 0 {
            crate::cors::lemma_split_some(s@, ':');
        }
    }
    Some(out)
}

fn sixteen(v: &Vec<u8>) -> (r: [u8; 16])
    requires
        v@.len() == 16,
    ensures
        r@ == v@,
{
    let mut out: [u8; 16] = [0u8; 16];
    let mut i: usize = 0;
    while i < 16
        invariant
            i <= 16,
            v@.len() == 16,
            forall|k: int| 0 <= k < i ==> out@[k] == v@[k],
        decreases 16 - i,
    {
        out[i] = v[i];
        i += 1;
    }
    assert(out@ =~= v@);
    out
}

fn parse_v6(s: &str) -> (r: Option<[u8; 16]>)
    ensures
        r is Some <==> read_v6(s@) is Some,
        r is Some ==> r->Some_0@ == read_v6(s@)->Some_0,
{
    let v = chars_of(s);
    let gap = chars_of("::");
    proof {
        reveal_strlit("::");
    }
    match find_at(&v, &gap, 0) {
        None => match parse_side(s, true) {
            Some(bytes) => if bytes.len() == 16 {
                Some(sixteen(&bytes))
            } else {
                None
            },
            None => None,
        },
        Some(k) => {
            let left = slice_text(&v, 0, k);
            let right = slice_text(&v, k + 2, v.len());
            match (parse_side(&left, false), parse_side(&right, true)) {
                (Some(head), Some(tail)) => {
                    if head.len() > 14 || tail.len() > 14 - head.len() {
                        return None;
                    }
                    let gap_len: usize = 16 - head.len() - tail.len();
                    let mut out: Vec<u8> = Vec::new();
                    let mut i: usize = 0;
                    let ghost whole = head@ + zero_bytes(16 - head@.len() - tail@.len()) + tail@;
                    while i < 16
                        invariant
                            i <= 16,
                            head@.len() + tail@.len() <= 14,
                            gap_len == 16 - head@.len() - tail@.len(),
                            whole == head@ + zero_bytes(16 - head@.len() - tail@.len()) + tail@,
                            out@ == whole.take(i as int),
                        decreases 16 - i,
                    {
                        let b: u8 = if i < head.len() {
                            head[i]
                        } else if i < head.len() + gap_len {
                            0
                        } else {
                            tail[i - head.len() - gap_len]
                        };
                        assert(whole[i as int] == b);
                        out.push(b);
                        i += 1;
                        assert(out@ =~= whole.take(i as int));
                    }
                    assert(whole.take(16) =~= whole);
                    Some(sixteen(&out))
                },
                _ => None,
            }
        },
    }
}

impl IpAddr {
    /// Reads an address literal, without brackets.
    pub fn parse(s: &str) -> (r: Option<IpAddr>)
        ensures
            r is Some <==> read_ip(s@) is Some,
            r is Some ==> r->Some_0@ == read_ip(s@)->Some_0,
    {
        if let Some(b) = parse_v4(s) {
            return Some(IpAddr::V4(b));
        }
        match parse_v6(s) {
            Some(b) => Some(IpAddr::V6(b)),
            None => None,
        }
    }
}

// -------------------------------------------------------------- the text

pub open spec fn hex_char(n: nat) -> char {
    if n < 10 {
        (('0' as u32) + n) as char
    } else {
        (('a' as u32) + (n - 10)) as char
    }
}

/// The number in hexadecimal, without leading zeros.
pub open spec fn hex(n: nat) -> Seq<char>
    decreases n,
{
    if n < 16 {
        seq![hex_char(n)]
    } else {
        hex(n / 16).push(hex_char(n % 16))
    }
}

/// A dotted quad, written.
pub open spec fn v4_text(b: Seq<u8>) -> Seq<char> {
    decimal(b[0] as nat) + "."@ + decimal(b[1] as nat) + "."@ + decimal(b[2] as nat) + "."@
        + decimal(b[3] as nat)
}

/// The sixteen-bit number at a place of an IPv6 address.
pub open spec fn segment(b: Seq<u8>, i: int) -> nat {
    (b[2 * i] * 256 + b[2 * i + 1]) as nat
}

/// How many zero segments follow each other from `i` on.
pub open spec fn zero_run(b: Seq<u8>, i: int) -> int
    decreases 8 - i,
{
    if i < 0 || i >= 8 || segment(b, i) != 0 {
        0
    } else {
        1 + zero_run(b, i + 1)
    }
}

/// The start of the longest run of zero segments from `i` on, the first of
/// equals.
pub open spec fn longest_run(b: Seq<u8>, i: int) -> int
    decreases 8 - i,
{
    if i >= 8 {
        8
    } else {
        let rest = longest_run(b, i + 1);
        if zero_run(b, i) >= zero_run(b, rest) {
            i
        } else {
            rest
        }
    }
}

/// The segments from `from` to `to` in hexadecimal, between colons.
pub open spec fn segments_text(b: Seq<u8>, from: int, to: int) -> Seq<char>
    decreases to - from,
{
    if from >= to {
        Seq::empty()
    } else if to - from == 1 {
        hex(segment(b, from))
    } else {
        segments_text(b, from, to - 1) + ":"@ + hex(segment(b, to - 1))
    }
}

/// An address, written: a mapped IPv4 address as one, and the first longest
/// run of two or more zero segments as `::`.
pub open spec fn ip_text(a: IpView) -> Seq<char> {
    match a {
        IpView::V4(b) => v4_text(b),
        IpView::V6(b) => if is_mapped(b) {
            "::ffff:"@ + v4_text(b.subrange(12, 16))
        } else {
            let start = longest_run(b, 0);
            let len = zero_run(b, start);
            if len > 1 {
                segments_text(b, 0, start) + "::"@ + segments_text(b, start + len, 8)
            } else {
                segments_text(b, 0, 8)
            }
        },
    }
}

fn hex_text(n: u16) -> (r: String)
    ensures
        r@ == hex(n as nat),
    decreases n,
{
    let d: u8 = (n % 16) as u8;
    let c: char = if d < 10 {
        (48u8 + d) as char
    } else {
        (87u8 + d) as char
    };
    if n < 16 {
        let mut out = String::new();
        out.push(c);
        assert(out@ =~= hex(n as nat));
        out
    } else {
        let mut out = hex_text(n / 16);
        out.push(c);
        out
    }
}

fn quad_text(a: u8, b: u8, c: u8, d: u8) -> (r: String)
    ensures
        r@ == v4_text(seq![a, b, c, d]),
{
    let mut out = decimal_text(a as u64);
    out.append(".");
    out.append(&decimal_text(b as u64));
    out.append(".");
    out.append(&decimal_text(c as u64));
    out.append(".");
    out.append(&decimal_text(d as u64));
    out
}

fn segment_at(b: &[u8; 16], i: usize) -> (r: u16)
    requires
        i < 8,
    ensures
        r == segment(b@, i as int),
{
    (b[2 * i] as u16) * 256 + b[2 * i + 1] as u16
}

fn write_segments(b: &[u8; 16], from: usize, to: usize) -> (r: String)
    requires
        from <= to <= 8,
    ensures
        r@ == segments_text(b@, from as int, to as int),
{
    let mut out = String::new();
    let mut i: usize = from;
    while i < to
        invariant
            from <= i <= to <= 8,
            out@ == segments_text(b@, from as int, i as int),
        decreases to - i,
    {
        if i > from {
            out.append(":");
        }
        out.append(&hex_text(segment_at(b, i)));
        i += 1;
        proof {
            if i == from + 1 {
                assert(Seq::<char>::empty() + hex(segment(b@, i - 1)) =~= hex(
                    segment(b@, i - 1),
                ));
            }
        }
    }
    out
}

impl IpAddr {
    /// The address as text.
    pub fn text(&self) -> (r: String)
        ensures
            r@ == ip_text(self@),
    {
        match self {
            IpAddr::V4(b) => quad_text(b[0], b[1], b[2], b[3]),
            IpAddr::V6(b) => {
                if zeros(b, 10) && b[10] == 0xff && b[11] == 0xff {
                    let mut out = "::ffff:".to_owned();
                    out.append(&quad_text(b[12], b[13], b[14], b[15]));
                    return out;
                }
                let mut i: usize = 8;
                let mut run: usize = 0;
                let mut start: usize = 8;
                let mut len: usize = 0;
                while i > 0
                    invariant
                        i <= 8,
                        run == zero_run(b@, i as int),
                        run + i <= 8,
                        start == longest_run(b@, i as int),
                        len == zero_run(b@, start as int),
                        start <= 8,
                        start + len <= 8,
                    decreases i,
                {
                    i -= 1;
                    run = if segment_at(b, i) == 0 {
                        run + 1
                    } else {
                        0
                    };
                    if run >= len {
                        start = i;
                        len = run;
                    }
                }
                if len > 1 {
                    let mut out = write_segments(b, 0, start);
                    out.append("::");
                    out.append(&write_segments(b, start + len, 8));
                    out
                } else {
                    write_segments(b, 0, 8)
                }
            },
        }
    }
}

/// An IPv4 address is internal exactly where, read as one 32-bit number, it
/// lies in 127.0.0.0/8, 10.0.0.0/8, 172.16.0.0/12, 192.168.0.0/16,
/// 169.254.0.0/16 or 100.64.0.0/10, or is 0.0.0.0 or 255.255.255.255.
pub proof fn law_internal_v4_is_these_ranges(b: Seq<u8>)
    requires
        b.len() == 4,
    ensures
        ({
            let n = b[0] * 0x100_0000 + b[1] * 0x1_0000 + b[2] * 0x100 + b[3];
            is_internal(IpView::V4(b)) <==> {
                ||| 0x7f00_0000 <= n <= 0x7fff_ffff
                ||| 0x0a00_0000 <= n <= 0x0aff_ffff
                ||| 0xac10_0000 <= n <= 0xac1f_ffff
                ||| 0xc0a8_0000 <= n <= 0xc0a8_ffff
                ||| 0xa9fe_0000 <= n <= 0xa9fe_ffff
                ||| 0x6440_0000 <= n <= 0x647f_ffff
                ||| n == 0
                ||| n == 0xffff_ffff
            }
        }),
{
    let zero = seq![0u8, 0u8, 0u8, 0u8];
    let ones = seq![255u8, 255u8, 255u8, 255u8];
    assert(b == zero <==> b[0] == 0 && b[1] == 0 && b[2] == 0 && b[3] == 0) by {
        if b[0] == 0 && b[1] == 0 && b[2] == 0 && b[3] == 0 {
            assert(b =~= zero);
        }
        assert(zero[0] == 0 && zero[1] == 0 && zero[2] == 0 && zero[3] == 0);
    }
    assert(b == ones <==> b[0] == 255 && b[1] == 255 && b[2] == 255 && b[3] == 255) by {
        if b[0] == 255 && b[1] == 255 && b[2] == 255 && b[3] == 255 {
            assert(b =~= ones);
        }
        assert(ones[0] == 255 && ones[1] == 255 && ones[2] == 255 && ones[3] == 255);
    }
}

/// An IPv6 address that carries an IPv4 one, `::ffff:0:0/96`, is internal
/// exactly where that one is. Any other is internal exactly where it lies in
/// fc00::/7 or fe80::/10, by its first sixteen bits, or is `::` or `::1`.
pub proof fn law_internal_v6_is_these_ranges(b: Seq<u8>)
    requires
        b.len() == 16,
    ensures
        ({
            let head = b[0] * 0x100 + b[1];
            let carries = b.take(12) == seq![0u8, 0, 0, 0, 0, 0, 0, 0, 0, 0, 0xff, 0xff];
            &&& carries ==> is_internal(IpView::V6(b)) == is_internal(IpView::V4(b.skip(12)))
            &&& !carries ==> (is_internal(IpView::V6(b)) <==> {
                ||| 0xfc00 <= head <= 0xfdff
                ||| 0xfe80 <= head <= 0xfebf
                ||| b.take(15) == Seq::new(15, |i: int| 0u8) && b[15] <= 1
            })
        }),
{
    let lead = seq![0u8, 0, 0, 0, 0, 0, 0, 0, 0, 0, 0xff, 0xff];
    assert(b.take(12) == lead <==> is_mapped(b)) by {
        if b.take(12) == lead {
            assert forall|i: int| 0 <= i < 10 implies #[trigger] b[i] == 0 by {
                assert(b[i] == lead[i]);
            }
            assert(b[10] == lead[10] && b[11] == lead[11]);
        }
        if is_mapped(b) {
            assert(b.take(12) =~= lead);
        }
    }
    assert(b.skip(12) =~= b.subrange(12, 16));
    let zeros = Seq::new(15, |i: int| 0u8);
    assert(b.take(15) == zeros <==> forall|i: int| 0 <= i < 15 ==> #[trigger] b[i] == 0) by {
        if b.take(15) == zeros {
            assert forall|i: int| 0 <= i < 15 implies #[trigger] b[i] == 0 by {
                assert(b[i] == zeros[i]);
            }
        }
        if forall|i: int| 0 <= i < 15 ==> #[trigger] b[i] == 0 {
            assert(b.take(15) =~= zeros);
        }
    }
    if b.take(15) == zeros && b[15] == 0 {
        assert forall|i: int| 0 <= i < 16 implies #[trigger] b[i] == 0 by {}
    }
    if b.take(15) == zeros {
        assert(b[0] == 0);
    }
}

// ----------------------------------------------------- reading and writing

proof fn lemma_split_at(x: Seq<char>, y: Seq<char>, sep: char)
    ensures
        split_on(x.push(sep) + y, sep) == split_on(x, sep) + split_on(y, sep),
        split_on(y, sep).len() > 0,
    decreases y.len(),
{
    let s = x.push(sep) + y;
    if y.len() == 0 {
        assert(s =~= x.push(sep));
        assert(s.drop_last() =~= x);
        assert(split_on(s, sep) =~= split_on(x, sep) + split_on(y, sep));
    } else {
        let front = y.drop_last();
        lemma_split_at(x, front, sep);
        assert(s.drop_last() =~= x.push(sep) + front);
        assert(s.last() == y.last());
        let a = split_on(x, sep);
        let b = split_on(front, sep);
        assert((a + b).last() == b.last());
        assert((a + b).drop_last() =~= a + b.drop_last());
        assert(split_on(s, sep) =~= a + split_on(y, sep));
    }
}

proof fn lemma_split_none(y: Seq<char>, sep: char)
    requires
        !y.contains(sep),
    ensures
        split_on(y, sep) == seq![y],
    decreases y.len(),
{
    if y.len() == 0 {
        assert(y =~= Seq::empty());
        assert(split_on(y, sep) =~= seq![y]);
    } else {
        let front = y.drop_last();
        assert(!front.contains(sep)) by {
            if front.contains(sep) {
                let k = choose|k: int| 0 <= k < front.len() && front[k] == sep;
                assert(y[k] == sep);
            }
        }
        lemma_split_none(front, sep);
        assert(y.last() != sep) by {
            assert(y[y.len() - 1] == y.last());
        }
        assert(front.push(y.last()) =~= y);
        assert(split_on(y, sep) =~= seq![y]);
    }
}

/// A numeral reads back: the value of what is written is what was written, of
/// digits only, without a zero in front.
pub proof fn law_a_numeral_reads_back(n: nat)
    ensures
        decimal_value(decimal(n)) == n,
        forall|i: int| 0 <= i < decimal(n).len() ==> is_digit(#[trigger] decimal(n)[i]),
        decimal(n).len() >= 1,
        decimal(n).len() > 1 ==> decimal(n)[0] != '0',
        n < 10 ==> decimal(n).len() == 1,
        n < 100 ==> decimal(n).len() <= 2,
        n < 1000 ==> decimal(n).len() <= 3,
    decreases n,
{
    crate::text::law_how_a_number_is_written(n / 10, n % 10);
    if n >= 10 {
        law_a_numeral_reads_back(n / 10);
        let front = decimal(n / 10);
        let all = decimal(n);
        assert(all.drop_last() =~= front);
        assert(all.last() == crate::text::digit_char(n % 10));
        assert forall|i: int| 0 <= i < all.len() implies is_digit(#[trigger] all[i]) by {
            if i < front.len() {
                assert(all[i] == front[i]);
            }
        }
        crate::text::law_how_a_number_is_written(n / 10, 0);
        assert(all[0] == front[0]);
    } else {
        let all = decimal(n);
        assert(all.drop_last() =~= Seq::empty());
        assert(decimal_value(Seq::<char>::empty()) == 0);
    }
}

proof fn lemma_octet_is_decimal(s: Seq<char>)
    requires
        s.len() >= 1,
        forall|i: int| 0 <= i < s.len() ==> is_digit(#[trigger] s[i]),
        s.len() > 1 ==> s[0] != '0',
    ensures
        decimal(decimal_value(s)) == s,
        s[0] != '0' ==> decimal_value(s) > 0,
    decreases s.len(),
{
    let front = s.drop_last();
    let d = (s.last() as u32 - '0' as u32) as nat;
    assert(is_digit(s[s.len() - 1]));
    assert(crate::text::digit_char(d) == s.last());
    if s.len() == 1 {
        assert(front =~= Seq::empty());
        assert(decimal_value(front) == 0);
        assert(decimal(d) =~= s);
    } else {
        assert forall|i: int| 0 <= i < front.len() implies is_digit(#[trigger] front[i]) by {
            assert(front[i] == s[i]);
        }
        assert(front[0] == s[0]);
        lemma_octet_is_decimal(front);
        let v = decimal_value(front);
        let n = decimal_value(s);
        assert(n == v * 10 + d);
        assert(n / 10 == v && n % 10 == d);
        assert(s =~= front.push(s.last()));
    }
}

proof fn lemma_quad_splits(a: Seq<char>, b: Seq<char>, c: Seq<char>, d: Seq<char>)
    requires
        !a.contains('.'),
        !b.contains('.'),
        !c.contains('.'),
        !d.contains('.'),
    ensures
        split_on(a + "."@ + b + "."@ + c + "."@ + d, '.') == seq![a, b, c, d],
{
    reveal_strlit(".");
    assert("."@ =~= seq!['.']);
    lemma_split_none(a, '.');
    lemma_split_none(b, '.');
    lemma_split_none(c, '.');
    lemma_split_none(d, '.');
    lemma_split_at(c, d, '.');
    lemma_split_at(b, c.push('.') + d, '.');
    lemma_split_at(a, b.push('.') + (c.push('.') + d), '.');
    assert(a + "."@ + b + "."@ + c + "."@ + d =~= a.push('.') + (b.push('.') + (c.push('.') + d)));
    assert(seq![a] + (seq![b] + (seq![c] + seq![d])) =~= seq![a, b, c, d]);
}

proof fn lemma_digits_hold_no_dot(s: Seq<char>)
    requires
        forall|i: int| 0 <= i < s.len() ==> is_digit(#[trigger] s[i]),
    ensures
        !s.contains('.'),
{
    if s.contains('.') {
        let k = choose|k: int| 0 <= k < s.len() && s[k] == '.';
        assert(is_digit(s[k]));
    }
}

/// An IPv4 address is written as its four numbers in decimal between dots, and
/// that, and nothing else, reads as the address.
pub proof fn law_a_dotted_quad_is_the_one_spelling(b: Seq<u8>, s: Seq<char>)
    requires
        b.len() == 4,
    ensures
        ip_text(IpView::V4(b)) == decimal(b[0] as nat) + "."@ + decimal(b[1] as nat) + "."@
            + decimal(b[2] as nat) + "."@ + decimal(b[3] as nat),
        read_ip(ip_text(IpView::V4(b))) == Some(IpView::V4(b)),
        read_ip(s) == Some(IpView::V4(b)) ==> s == ip_text(IpView::V4(b)),
{
    let t0 = decimal(b[0] as nat);
    let t1 = decimal(b[1] as nat);
    let t2 = decimal(b[2] as nat);
    let t3 = decimal(b[3] as nat);
    law_a_numeral_reads_back(b[0] as nat);
    law_a_numeral_reads_back(b[1] as nat);
    law_a_numeral_reads_back(b[2] as nat);
    law_a_numeral_reads_back(b[3] as nat);
    lemma_digits_hold_no_dot(t0);
    lemma_digits_hold_no_dot(t1);
    lemma_digits_hold_no_dot(t2);
    lemma_digits_hold_no_dot(t3);
    lemma_quad_splits(t0, t1, t2, t3);
    let w = ip_text(IpView::V4(b));
    let parts = split_on(w, '.');
    assert(parts =~= seq![t0, t1, t2, t3]);
    assert(parts[0] == t0 && parts[1] == t1 && parts[2] == t2 && parts[3] == t3);
    assert(read_v4(w) is Some);
    assert(read_v4(w)->Some_0 =~= b);
    if read_ip(s) == Some(IpView::V4(b)) {
        let p = split_on(s, '.');
        assert(read_v4(s) == Some(b));
        let back = seq![
            decimal_value(p[0]) as u8,
            decimal_value(p[1]) as u8,
            decimal_value(p[2]) as u8,
            decimal_value(p[3]) as u8,
        ];
        assert(back == b);
        assert(b[0] == back[0] && b[1] == back[1] && b[2] == back[2] && b[3] == back[3]);
        lemma_octet_is_decimal(p[0]);
        lemma_octet_is_decimal(p[1]);
        lemma_octet_is_decimal(p[2]);
        lemma_octet_is_decimal(p[3]);
        assert(p[0] == t0 && p[1] == t1 && p[2] == t2 && p[3] == t3);
        crate::text::law_splitting_loses_nothing(s, '.');
        assert(p =~= seq![t0, t1, t2, t3]);
        assert(parts =~= p);
        crate::text::law_splitting_loses_nothing(w, '.');
    }
}

/// The ranges in which an IPv4 address is internal, of the decision itself.
pub proof fn law_which_v4_addresses_are_internal(addr: IpAddr, b: Seq<u8>, r: bool)
    requires
        call_ensures(is_internal_address, (addr,), r),
        addr@ == IpView::V4(b),
        b.len() == 4,
    ensures
        ({
            let n = b[0] * 0x100_0000 + b[1] * 0x1_0000 + b[2] * 0x100 + b[3];
            r <==> {
                ||| 0x7f00_0000 <= n <= 0x7fff_ffff
                ||| 0x0a00_0000 <= n <= 0x0aff_ffff
                ||| 0xac10_0000 <= n <= 0xac1f_ffff
                ||| 0xc0a8_0000 <= n <= 0xc0a8_ffff
                ||| 0xa9fe_0000 <= n <= 0xa9fe_ffff
                ||| 0x6440_0000 <= n <= 0x647f_ffff
                ||| n == 0
                ||| n == 0xffff_ffff
            }
        }),
{
    law_internal_v4_is_these_ranges(b);
}

// ------------------------------------------------------------- IPv6 in text

proof fn lemma_hex(n: nat)
    requires
        n < 0x1_0000,
    ensures
        hex_value(hex(n)) == n,
        1 <= hex(n).len() <= 4,
        n < 0x1000 ==> hex(n).len() <= 3,
        n < 0x100 ==> hex(n).len() <= 2,
        n < 0x10 ==> hex(n).len() == 1,
        forall|i: int| 0 <= i < hex(n).len() ==> is_hex(#[trigger] hex(n)[i]),
        forall|i: int| 0 <= i < hex(n).len() ==> !('A' <= #[trigger] hex(n)[i] <= 'F'),
    decreases n,
{
    let all = hex(n);
    if n < 16 {
        assert(all.drop_last() =~= Seq::empty());
        assert(hex_value(Seq::<char>::empty()) == 0);
    } else {
        lemma_hex(n / 16);
        let front = hex(n / 16);
        assert(all.drop_last() =~= front);
        assert(all.last() == hex_char(n % 16));
        assert forall|i: int| 0 <= i < all.len() implies is_hex(#[trigger] all[i]) && !('A'
            <= all[i] <= 'F') by {
            if i < front.len() {
                assert(all[i] == front[i]);
            }
        }
    }
}

proof fn lemma_group(b: Seq<u8>, i: int)
    requires
        b.len() == 16,
        0 <= i < 8,
    ensures
        is_group(hex(segment(b, i))),
        group_bytes(hex(segment(b, i))) == b.subrange(2 * i, 2 * i + 2),
        !hex(segment(b, i)).contains(':'),
        !hex(segment(b, i)).contains('.'),
{
    let n = segment(b, i);
    lemma_hex(n);
    let t = hex(n);
    if t.contains(':') {
        let k = choose|k: int| 0 <= k < t.len() && t[k] == ':';
        assert(is_hex(t[k]));
    }
    if t.contains('.') {
        let k = choose|k: int| 0 <= k < t.len() && t[k] == '.';
        assert(is_hex(t[k]));
    }
    assert(n / 256 == b[2 * i] && n % 256 == b[2 * i + 1]);
    assert(group_bytes(t) =~= b.subrange(2 * i, 2 * i + 2));
}

/// The groups from one place to another, in order.
spec fn groups_of(b: Seq<u8>, from: int, to: int) -> Seq<Seq<char>> {
    Seq::new((to - from) as nat, |k: int| hex(segment(b, from + k)))
}

proof fn lemma_segments(b: Seq<u8>, from: int, to: int, quad: bool)
    requires
        b.len() == 16,
        0 <= from <= to <= 8,
    ensures
        from < to ==> split_on(segments_text(b, from, to), ':') == groups_of(b, from, to),
        read_groups(groups_of(b, from, to), quad) == Some(b.subrange(2 * from, 2 * to)),
        read_side(segments_text(b, from, to), quad) == Some(b.subrange(2 * from, 2 * to)),
        from < to ==> segments_text(b, from, to).len() > 0,
        from < to ==> segments_text(b, from, to).last() != ':',
        !segments_text(b, from, to).contains('.'),
        forall|i: int, j: int|
            0 <= i < j < segments_text(b, from, to).len() && j == i + 1
                && #[trigger] segments_text(b, from, to)[i] == ':'
                ==> #[trigger] segments_text(b, from, to)[j] != ':',
    decreases to - from,
{
    reveal_strlit(":");
    let text = segments_text(b, from, to);
    let groups = groups_of(b, from, to);
    if from == to {
        assert(groups =~= Seq::empty());
        assert(b.subrange(2 * from, 2 * to) =~= Seq::empty());
    } else {
        lemma_segments(b, from, to - 1, false);
        lemma_group(b, to - 1);
        let last = hex(segment(b, to - 1));
        let before = segments_text(b, from, to - 1);
        assert(groups.drop_last() =~= groups_of(b, from, to - 1));
        assert(groups.last() == last);
        assert(b.subrange(2 * from, 2 * (to - 1)) + b.subrange(2 * to - 2, 2 * to) =~= b.subrange(
            2 * from,
            2 * to,
        ));
        lemma_split_none(last, ':');
        assert(last.contains(last[last.len() - 1]));
        assert(last.contains(last[0]));
        if to - from == 1 {
            assert(groups =~= seq![last]);
            assert(text == last);
        } else {
            assert(":"@ =~= seq![':']);
            assert(text =~= before.push(':') + last);
            lemma_split_at(before, last, ':');
            assert(groups_of(b, from, to - 1) + seq![last] =~= groups);
            assert(text.last() == last.last());
        }
        assert(!text.contains('.')) by {
            if text.contains('.') {
                let k = choose|k: int| 0 <= k < text.len() && text[k] == '.';
                if to - from == 1 {
                    assert(last[k] == '.');
                } else if k < before.len() {
                    assert(before[k] == '.');
                } else if k > before.len() {
                    assert(last[k - before.len() - 1] == '.');
                }
            }
        }
        assert forall|i: int, j: int|
            0 <= i < j < text.len() && j == i + 1 && #[trigger] text[i]
                == ':' implies #[trigger] text[j] != ':' by {
            if to - from == 1 {
                assert(last.contains(last[i]));
            } else if i < before.len() - 1 {
                assert(before[i] == ':');
                assert(before[i + 1] == text[i + 1]);
            } else if i == before.len() - 1 {
                assert(before.last() == text[i]);
            } else if i == before.len() {
                assert(text[i + 1] == last[0]);
            } else {
                assert(last[i - before.len() - 1] == ':');
                assert(last.contains(last[i - before.len() - 1]));
            }
        }
    }
}

proof fn lemma_zero_run(b: Seq<u8>, i: int, k: int)
    requires
        b.len() == 16,
        0 <= i <= 8,
    ensures
        0 <= zero_run(b, i) <= 8 - i,
        i <= k < i + zero_run(b, i) ==> segment(b, k) == 0,
    decreases 8 - i,
{
    if i < 8 && segment(b, i) == 0 {
        lemma_zero_run(b, i + 1, k);
    }
}

/// What is left out of an IPv6 address is the first of its longest runs of
/// zero groups.
pub proof fn law_which_zeros_are_left_out(b: Seq<u8>, i: int)
    requires
        b.len() == 16,
        0 <= i < 8,
    ensures
        0 <= longest_run(b, 0) < 8,
        zero_run(b, i) <= zero_run(b, longest_run(b, 0)),
        i < longest_run(b, 0) ==> zero_run(b, i) < zero_run(b, longest_run(b, 0)),
{
    lemma_longest_run(b, 0, i);
}

proof fn lemma_longest_run(b: Seq<u8>, from: int, i: int)
    requires
        b.len() == 16,
        0 <= from < 8,
        from <= i < 8,
    ensures
        from <= longest_run(b, from) < 8,
        zero_run(b, i) <= zero_run(b, longest_run(b, from)),
        i < longest_run(b, from) ==> zero_run(b, i) < zero_run(b, longest_run(b, from)),
    decreases 8 - from,
{
    lemma_zero_run(b, from, from);
    if from == 7 {
        assert(longest_run(b, 8) == 8);
        assert(zero_run(b, 8) == 0);
    } else {
        lemma_longest_run(b, from + 1, if i > from {
            i
        } else {
            from + 1
        });
    }
}

proof fn lemma_no_octets(s: Seq<char>)
    requires
        !s.contains('.'),
    ensures
        read_v4(s) is None,
{
    lemma_split_none(s, '.');
}

/// An IPv6 address reads back from what is written of it.
pub proof fn law_an_ipv6_address_reads_back(b: Seq<u8>)
    requires
        b.len() == 16,
    ensures
        read_ip(ip_text(IpView::V6(b))) == Some(IpView::V6(b)),
{
    if is_mapped(b) {
        lemma_mapped_reads_back(b);
    } else {
        let start = longest_run(b, 0);
        let len = zero_run(b, start);
        law_which_zeros_are_left_out(b, 0);
        lemma_zero_run(b, start, start);
        if len > 1 {
            lemma_gap_reads_back(b, start, len);
        } else {
            lemma_whole_reads_back(b);
        }
    }
}

proof fn lemma_whole_reads_back(b: Seq<u8>)
    requires
        b.len() == 16,
    ensures
        read_v6(segments_text(b, 0, 8)) == Some(b),
        read_v4(segments_text(b, 0, 8)) is None,
{
    reveal_strlit("::");
    let text = segments_text(b, 0, 8);
    lemma_segments(b, 0, 8, true);
    crate::text::lemma_find_from(text, "::"@, 0);
    if let Some(j) = find_from(text, "::"@, 0) {
        assert(text.subrange(j, j + 2)[0] == ':' && text.subrange(j, j + 2)[1] == ':');
        assert(text[j] == ':' && text[j + 1] == ':');
    }
    assert(b.subrange(0, 16) =~= b);
    lemma_no_octets(text);
}

/// Where the first `::` stands between two sides.
proof fn lemma_gap_found(a: Seq<char>, z: Seq<char>)
    requires
        !crate::text::contains(a, "::"@),
        a.len() == 0 || a.last() != ':',
    ensures
        find_from(a + "::"@ + z, "::"@, 0) == Some(a.len() as int),
        (a + "::"@ + z).subrange(0, a.len() as int) == a,
        (a + "::"@ + z).subrange(a.len() + 2int, (a + "::"@ + z).len() as int) == z,
{
    reveal_strlit("::");
    let s = a + "::"@ + z;
    let k = a.len() as int;
    crate::text::lemma_find_from(s, "::"@, 0);
    assert(crate::text::occurs_at(s, "::"@, k)) by {
        assert(s.subrange(k, k + 2) =~= "::"@);
    }
    assert forall|j: int| 0 <= j < k implies !crate::text::occurs_at(s, "::"@, j) by {
        if crate::text::occurs_at(s, "::"@, j) {
            assert(s.subrange(j, j + 2)[0] == ':' && s.subrange(j, j + 2)[1] == ':');
            if j + 1 < k {
                assert(a.subrange(j, j + 2) =~= s.subrange(j, j + 2));
                assert(crate::text::occurs_at(a, "::"@, j));
            } else {
                assert(a.last() == s[j]);
            }
        }
    }
    assert(s.subrange(0, k) =~= a);
    assert(s.subrange(k + 2, s.len() as int) =~= z);
}

proof fn lemma_gap_holds_no_dot(a: Seq<char>, z: Seq<char>)
    requires
        !a.contains('.'),
        !z.contains('.'),
    ensures
        !(a + "::"@ + z).contains('.'),
{
    reveal_strlit("::");
    let text = a + "::"@ + z;
    let k = a.len() as int;
    if text.contains('.') {
        let m = choose|m: int| 0 <= m < text.len() && text[m] == '.';
        if m < k {
            assert(a[m] == '.');
        } else if m >= k + 2 {
            assert(z[m - k - 2] == '.');
        }
    }
}

proof fn lemma_no_gap_inside(b: Seq<u8>, to: int)
    requires
        b.len() == 16,
        0 <= to <= 8,
    ensures
        !crate::text::contains(segments_text(b, 0, to), "::"@),
{
    reveal_strlit("::");
    lemma_segments(b, 0, to, false);
    let a = segments_text(b, 0, to);
    if crate::text::contains(a, "::"@) {
        let j = choose|j: int| crate::text::occurs_at(a, "::"@, j);
        assert(a.subrange(j, j + 2)[0] == ':' && a.subrange(j, j + 2)[1] == ':');
        assert(a[j] == ':' && a[j + 1] == ':');
    }
}

proof fn lemma_gap_reads_back(b: Seq<u8>, start: int, len: int)
    requires
        b.len() == 16,
        0 <= start < 8,
        len == zero_run(b, start),
        1 < len <= 8 - start,
    ensures
        ({
            let text = segments_text(b, 0, start) + "::"@ + segments_text(b, start + len, 8);
            read_v6(text) == Some(b) && read_v4(text) is None
        }),
{
    let a = segments_text(b, 0, start);
    let z = segments_text(b, start + len, 8);
    lemma_segments(b, 0, start, false);
    lemma_segments(b, start + len, 8, true);
    if start == 0 {
        assert(a =~= Seq::empty());
    }
    lemma_no_gap_inside(b, start);
    lemma_gap_found(a, z);
    lemma_gap_holds_no_dot(a, z);
    lemma_no_octets(a + "::"@ + z);
    lemma_zeros_between(b, start, len);
    let head = b.subrange(0, 2 * start);
    let tail = b.subrange(2 * (start + len), 16);
    assert(read_side(a, false) == Some(head));
    assert(read_side(z, true) == Some(tail));
    assert(head.len() == 2 * start && tail.len() == 16 - 2 * (start + len));
    assert(read_v6(a + "::"@ + z) == Some(head + zero_bytes(16 - head.len() - tail.len()) + tail));
}

/// An address is what stands before a run of zeros, the zeros, and what stands
/// behind.
proof fn lemma_zeros_between(b: Seq<u8>, start: int, len: int)
    requires
        b.len() == 16,
        0 <= start < 8,
        len == zero_run(b, start),
        1 < len <= 8 - start,
    ensures
        b.subrange(0, 2 * start) + zero_bytes(2 * len) + b.subrange(2 * (start + len), 16) == b,
        16 - 2 * start - (16 - 2 * (start + len)) == 2 * len,
{
    let head = b.subrange(0, 2 * start);
    let tail = b.subrange(2 * (start + len), 16);
    let whole = head + zero_bytes(2 * len) + tail;
    assert forall|i: int| 0 <= i < 16 implies whole[i] == b[i] by {
        if 2 * start <= i < 2 * (start + len) {
            lemma_zero_run(b, start, i / 2);
            assert(segment(b, i / 2) == 0);
            assert(i == 2 * (i / 2) || i == 2 * (i / 2) + 1);
        }
    }
    assert(whole =~= b);
}

proof fn lemma_mapped_reads_back(b: Seq<u8>)
    requires
        b.len() == 16,
        is_mapped(b),
    ensures
        read_ip(ip_text(IpView::V6(b))) == Some(IpView::V6(b)),
{
    reveal_strlit("::");
    reveal_strlit("::ffff:");
    reveal_strlit("ffff");
    let q = b.subrange(12, 16);
    law_a_dotted_quad_is_the_one_spelling(q, v4_text(q));
    let quad = v4_text(q);
    let text = ip_text(IpView::V6(b));
    assert(text == "::ffff:"@ + quad);
    assert(read_v4(quad) == Some(q));
    crate::text::lemma_find_from(text, "::"@, 0);
    assert(crate::text::occurs_at(text, "::"@, 0)) by {
        assert(text.subrange(0, 2) =~= "::"@);
    }
    assert(find_from(text, "::"@, 0) == Some(0int));
    assert(text.subrange(0, 0) =~= Seq::empty());
    let right = text.subrange(2, text.len() as int);
    let lead = "ffff"@;
    assert(right =~= lead.push(':') + quad);
    lemma_quad_holds_no_colon(q);
    assert(!lead.contains(':')) by {
        if lead.contains(':') {
            let k = choose|k: int| 0 <= k < lead.len() && lead[k] == ':';
        }
    }
    lemma_split_at(lead, quad, ':');
    lemma_split_none(lead, ':');
    lemma_split_none(quad, ':');
    let parts = split_on(right, ':');
    assert(parts =~= seq![lead, quad]);
    assert(parts.drop_last() =~= seq![lead]);
    assert(seq![lead].drop_last() =~= Seq::empty());
    assert(is_group(lead));
    assert(hex_value(lead) == 0xffff) by {
        assert(lead.drop_last() =~= seq!['f', 'f', 'f']);
        assert(seq!['f', 'f', 'f'].drop_last() =~= seq!['f', 'f']);
        assert(seq!['f', 'f'].drop_last() =~= seq!['f']);
        assert(seq!['f'].drop_last() =~= Seq::empty());
        assert(hex_value(Seq::<char>::empty()) == 0);
        assert(hex_value(seq!['f']) == 0xf);
        assert(hex_value(seq!['f', 'f']) == 0xff);
        assert(hex_value(seq!['f', 'f', 'f']) == 0xfff);
    }
    assert(read_groups(Seq::empty(), false) == Some(Seq::<u8>::empty()));
    assert(read_groups(seq![lead], false) == Some(Seq::<u8>::empty() + group_bytes(lead)));
    assert(!is_group(quad)) by {
        assert(quad.contains('.')) by {
            reveal_strlit(".");
            let d = decimal(q[0] as nat);
            assert(quad[d.len() as int] == '.');
        }
        let k = choose|k: int| 0 <= k < quad.len() && quad[k] == '.';
        assert(!is_hex(quad[k]));
    }
    let tail = Seq::<u8>::empty() + group_bytes(lead) + q;
    assert(read_groups(parts, true) == Some(tail));
    assert(right.len() > 0);
    let whole = Seq::<u8>::empty() + zero_bytes(10) + tail;
    assert(whole =~= b);
    assert(read_v6(text) == Some(b));
    assert(read_v4(text) is None) by {
        let p = split_on(text, '.');
        crate::text::law_splitting_loses_nothing(text, '.');
        if p.len() == 4 && is_octet(p[0]) {
            lemma_first_piece(p);
            assert(text[0] == p[0][0]);
            assert(is_digit(p[0][0]));
        }
    }
}

proof fn lemma_first_piece(p: Seq<Seq<char>>)
    requires
        p.len() > 0,
        p[0].len() > 0,
    ensures
        crate::text::joined(p, seq!['.']).len() > 0,
        crate::text::joined(p, seq!['.'])[0] == p[0][0],
    decreases p.len(),
{
    if p.len() > 1 {
        lemma_first_piece(p.drop_last());
    }
}

proof fn lemma_quad_holds_no_colon(q: Seq<u8>)
    requires
        q.len() == 4,
    ensures
        !v4_text(q).contains(':'),
{
    reveal_strlit(".");
    let t = v4_text(q);
    let t0 = decimal(q[0] as nat);
    let t1 = decimal(q[1] as nat);
    let t2 = decimal(q[2] as nat);
    let t3 = decimal(q[3] as nat);
    law_a_numeral_reads_back(q[0] as nat);
    law_a_numeral_reads_back(q[1] as nat);
    law_a_numeral_reads_back(q[2] as nat);
    law_a_numeral_reads_back(q[3] as nat);
    if t.contains(':') {
        let k = choose|k: int| 0 <= k < t.len() && t[k] == ':';
        let a = t0.len() as int;
        let b = a + 1 + t1.len();
        let c = b + 1 + t2.len();
        if k < a {
            assert(t[k] == t0[k]);
        } else if k > a && k < b {
            assert(t[k] == t1[k - a - 1]);
        } else if k > b && k < c {
            assert(t[k] == t2[k - b - 1]);
        } else if k > c {
            assert(t[k] == t3[k - c - 1]);
        }
    }
}

/// Every group of an IPv6 literal that is read has one to four hexadecimal
/// digits, in either case, but for a dotted quad at its end.
pub proof fn law_what_a_group_may_be(parts: Seq<Seq<char>>, quad: bool, i: int)
    requires
        read_groups(parts, quad) is Some,
        0 <= i < parts.len(),
    ensures
        (1 <= parts[i].len() <= 4 && forall|k: int|
            0 <= k < parts[i].len() ==> '0' <= #[trigger] parts[i][k] <= '9' || 'a' <= parts[i][k]
                <= 'f' || 'A' <= parts[i][k] <= 'F') || (quad && i == parts.len() - 1 && read_v4(
            parts[i],
        ) is Some),
    decreases parts.len(),
{
    if i == parts.len() - 1 {
        assert(parts[i] == parts.last());
        if is_group(parts[i]) {
            assert forall|k: int| 0 <= k < parts[i].len() implies '0' <= #[trigger] parts[i][k]
                <= '9' || 'a' <= parts[i][k] <= 'f' || 'A' <= parts[i][k] <= 'F' by {
                assert(is_hex(parts[i][k]));
            }
        }
    } else {
        law_what_a_group_may_be(parts.drop_last(), false, i);
        assert(parts.drop_last()[i] == parts[i]);
    }
}

/// An IPv6 literal that is read is eight groups of two bytes without a `::`,
/// and with one it has fewer, and zeros in their place.
pub proof fn law_how_an_ipv6_literal_is_read(left: Seq<char>, right: Seq<char>)
    requires
        !crate::text::contains(left, "::"@),
        left.len() == 0 || left.last() != ':',
    ensures
        read_v6(left + "::"@ + right) matches Some(bytes) ==> {
            let head = read_side(left, false);
            let tail = read_side(right, true);
            &&& head is Some && tail is Some
            &&& bytes.len() == 16
            &&& head->Some_0.len() + tail->Some_0.len() <= 14
            &&& bytes.take(head->Some_0.len() as int) == head->Some_0
            &&& bytes.skip(16 - tail->Some_0.len()) == tail->Some_0
            &&& forall|i: int|
                head->Some_0.len() <= i < 16 - tail->Some_0.len() ==> #[trigger] bytes[i] == 0
        },
{
    let s = left + "::"@ + right;
    lemma_gap_found(left, right);
    if let Some(bytes) = read_v6(s) {
        let head = read_side(left, false)->Some_0;
        let tail = read_side(right, true)->Some_0;
        assert(bytes == head + zero_bytes(16 - head.len() - tail.len()) + tail);
        assert(bytes.take(head.len() as int) =~= head);
        assert(bytes.skip(16 - tail.len()) =~= tail);
    }
}

} // verus!
