//! What a form sends: the entries, encoded.
use vstd::prelude::*;
use vstd::utf8::{decode_utf8, encode_utf8, encode_utf8_decode_utf8};

use crate::cors::pairs;
use crate::text::{
    chars_of, cut, find_from, lemma_find_from, occurs_at, same, split_on, string_view, trim, trimmed,
};
use crate::url::Url;

verus! {

/// What choosing an option did.
#[derive(Debug, Clone, PartialEq, Eq)]
pub enum SelectOutcome {
    /// Set. Carries the value the form will submit, which is what a recording
    /// should hold. The text is what the agent read, and the two differ on
    /// most real forms.
    Chosen(String),
    /// It is a `<select>`, and nothing in it matched by value or by text.
    NoSuchOption,
    /// It was never a `<select>`.
    NotASelect,
}

/// A request a form asked for, caught on its way to the network.
#[derive(Debug, Clone, PartialEq, Eq)]
pub struct Submission {
    pub url: Url,
    /// The document the form was in. A form's `action` is chosen by the page,
    /// so the submission is policed as a request *from* this origin.
    pub document: Url,
    /// `GET` or `POST`.
    pub method: String,
    /// The encoded body, for `POST`. Empty for `GET`, whose fields are already
    /// in the URL's query by the time it arrives.
    pub body: Vec<u8>,
    pub content_type: Option<String>,
}

/// What a `wait_for` is waiting for.
#[derive(Debug, Clone, PartialEq, Eq)]
pub enum WaitTarget {
    /// A CSS selector that must match at least one element.
    Selector(String),
    /// Text that must appear in the outline a reader would see.
    Text(String),
}

// ------------------------------------------------------------- urlencoded

/// A byte that stands for itself in an urlencoded form.
pub open spec fn is_unreserved(b: u8) -> bool {
    ||| b == 0x2a || b == 0x2d || b == 0x2e || b == 0x5f
    ||| 0x30 <= b <= 0x39
    ||| 0x41 <= b <= 0x5a
    ||| 0x61 <= b <= 0x7a
}

pub open spec fn upper_hex(n: int) -> char {
    if n < 10 {
        (('0' as u32) + n) as char
    } else {
        (('A' as u32) + (n - 10)) as char
    }
}

/// A byte as an urlencoded form writes it.
pub open spec fn escaped_byte(b: u8) -> Seq<char> {
    if is_unreserved(b) {
        seq![b as char]
    } else if b == 0x20 {
        seq!['+']
    } else {
        seq!['%', upper_hex(b as int / 16), upper_hex(b as int % 16)]
    }
}

pub open spec fn escaped(bytes: Seq<u8>) -> Seq<char>
    decreases bytes.len(),
{
    if bytes.len() == 0 {
        Seq::empty()
    } else {
        escaped(bytes.drop_last()) + escaped_byte(bytes.last())
    }
}

/// Names and values as `name=value`, joined by `&`.
pub open spec fn urlencoded(entries: Seq<(Seq<char>, Seq<char>)>) -> Seq<char>
    decreases entries.len(),
{
    if entries.len() == 0 {
        Seq::empty()
    } else {
        let pair = escaped(encode_utf8(entries.last().0)) + "="@ + escaped(
            encode_utf8(entries.last().1),
        );
        if entries.len() == 1 {
            pair
        } else {
            urlencoded(entries.drop_last()) + "&"@ + pair
        }
    }
}

/// A form's entry list as a query string: what a `GET` form puts in the URL.
///
/// Written by `url::form_urlencoded::Serializer::extend_pairs` into an empty
/// string: the pairs joined by `&`, a name and its value by `=`, and of their
/// bytes the letters, digits and `*-._` as they are, a space as `+`, the rest
/// as `%` and two capital hexadecimal digits.
#[verifier::external_body]
pub fn encode_form_query(entries: &[(String, String)]) -> (r: String)
    ensures
        r@ == urlencoded(pairs(entries@)),
{
    let mut out = String::new();
    url::form_urlencoded::Serializer::new(&mut out).extend_pairs(entries);
    out
}

// ------------------------------------------------------------- the others

/// The one encoding that escapes nothing.
pub open spec fn plain_form(entries: Seq<(Seq<char>, Seq<char>)>) -> Seq<char>
    decreases entries.len(),
{
    if entries.len() == 0 {
        Seq::empty()
    } else {
        plain_form(entries.drop_last()) + entries.last().0 + "="@ + entries.last().1 + "\r\n"@
    }
}

/// A name inside the quotation marks of a `Content-Disposition`.
pub open spec fn quoted_name_char(c: char) -> Seq<char> {
    if c == '"' {
        "%22"@
    } else if c == '\r' {
        "%0D"@
    } else if c == '\n' {
        "%0A"@
    } else {
        seq![c]
    }
}

pub open spec fn quoted_name(name: Seq<char>) -> Seq<char>
    decreases name.len(),
{
    if name.len() == 0 {
        Seq::empty()
    } else {
        quoted_name(name.drop_last()) + quoted_name_char(name.last())
    }
}

/// The parts of a multipart form, each behind its boundary.
pub open spec fn form_parts(entries: Seq<(Seq<char>, Seq<char>)>, boundary: Seq<char>) -> Seq<char>
    decreases entries.len(),
{
    if entries.len() == 0 {
        Seq::empty()
    } else {
        form_parts(entries.drop_last(), boundary) + "--"@ + boundary
            + "\r\nContent-Disposition: form-data; name=\""@ + quoted_name(entries.last().0)
            + "\"\r\n\r\n"@ + entries.last().1 + "\r\n"@
    }
}

/// A form as a multipart body.
pub open spec fn multipart_form(
    entries: Seq<(Seq<char>, Seq<char>)>,
    boundary: Seq<char>,
) -> Seq<char> {
    form_parts(entries, boundary) + "--"@ + boundary + "--\r\n"@
}

/// A form's body, as text, and the content type describing it.
pub open spec fn form_body(
    enctype: Seq<char>,
    entries: Seq<(Seq<char>, Seq<char>)>,
    boundary: Seq<char>,
) -> (Seq<char>, Seq<char>) {
    if trimmed(enctype) == "text/plain"@ {
        (plain_form(entries), "text/plain;charset=UTF-8"@)
    } else if trimmed(enctype) == "multipart/form-data"@ {
        (multipart_form(entries, boundary), "multipart/form-data; boundary="@ + boundary)
    } else {
        (urlencoded(entries), "application/x-www-form-urlencoded"@)
    }
}

fn write_plain(entries: &[(String, String)]) -> (r: String)
    ensures
        r@ == plain_form(pairs(entries@)),
{
    let ghost all = pairs(entries@);
    let mut out = String::new();
    let mut i: usize = 0;
    while i < entries.len()
        invariant
            i <= entries.len(),
            all == pairs(entries@),
            out@ == plain_form(all.take(i as int)),
        decreases entries.len() - i,
    {
        out.append(&entries[i].0);
        out.append("=");
        out.append(&entries[i].1);
        out.append("\r\n");
        i += 1;
        assert(all.take(i as int).drop_last() =~= all.take(i - 1));
        assert(all.take(i as int).last() == (entries@[i - 1].0@, entries@[i - 1].1@));
    }
    assert(all.take(i as int) =~= all);
    out
}

fn quote_name(name: &str) -> (r: String)
    ensures
        r@ == quoted_name(name@),
{
    let v = chars_of(name);
    let mut out = String::new();
    let mut i: usize = 0;
    while i < v.len()
        invariant
            i <= v.len(),
            v@ == name@,
            out@ == quoted_name(v@.take(i as int)),
        decreases v.len() - i,
    {
        let c = v[i];
        let ghost before = out@;
        if c == '"' {
            out.append("%22");
        } else if c == '\r' {
            out.append("%0D");
        } else if c == '\n' {
            out.append("%0A");
        } else {
            out.push(c);
            assert(out@ =~= before + seq![c]);
        }
        i += 1;
        assert(v@.take(i as int).drop_last() =~= v@.take(i - 1));
        assert(v@.take(i as int).last() == c);
    }
    assert(v@.take(i as int) =~= v@);
    out
}

fn write_multipart(entries: &[(String, String)], boundary: &str) -> (r: String)
    ensures
        r@ == multipart_form(pairs(entries@), boundary@),
{
    let ghost all = pairs(entries@);
    let mut out = String::new();
    let mut i: usize = 0;
    while i < entries.len()
        invariant
            i <= entries.len(),
            all == pairs(entries@),
            out@ == form_parts(all.take(i as int), boundary@),
        decreases entries.len() - i,
    {
        out.append("--");
        out.append(boundary);
        out.append("\r\nContent-Disposition: form-data; name=\"");
        out.append(&quote_name(&entries[i].0));
        out.append("\"\r\n\r\n");
        out.append(&entries[i].1);
        out.append("\r\n");
        i += 1;
        assert(all.take(i as int).drop_last() =~= all.take(i - 1));
        assert(all.take(i as int).last() == (entries@[i - 1].0@, entries@[i - 1].1@));
    }
    assert(all.take(i as int) =~= all);
    out.append("--");
    out.append(boundary);
    out.append("--\r\n");
    out
}

/// The bytes of a text.
pub fn bytes_of(s: &str) -> (r: Vec<u8>)
    ensures
        r@ == encode_utf8(s@),
{
    let b = s.as_bytes();
    let mut out: Vec<u8> = Vec::new();
    let mut i: usize = 0;
    while i < b.len()
        invariant
            i <= b.len(),
            out@ == b@.take(i as int),
        decreases b.len() - i,
    {
        out.push(b[i]);
        i += 1;
        assert(out@ =~= b@.take(i as int));
    }
    assert(b@.take(i as int) =~= b@);
    out
}

/// A form's entry list as a request body, and the content type describing it.
///
/// Three encodings, because a server that reads one does not read the others.
/// Uploads are absent: filling one in would mean reading the box's filesystem.
/// The boundary of a multipart body is the caller's to draw.
pub fn encode_form_body(enctype: &str, entries: &[(String, String)], boundary: &str) -> (r: (
    Vec<u8>,
    String,
))
    ensures
        r.0@ == encode_utf8(form_body(enctype@, pairs(entries@), boundary@).0),
        r.1@ == form_body(enctype@, pairs(entries@), boundary@).1,
{
    let kind = trim(enctype);
    if same(&kind, "text/plain") {
        (bytes_of(&write_plain(entries)), "text/plain;charset=UTF-8".to_owned())
    } else if same(&kind, "multipart/form-data") {
        let mut content_type = "multipart/form-data; boundary=".to_owned();
        content_type.append(boundary);
        (bytes_of(&write_multipart(entries, boundary)), content_type)
    } else {
        (
            bytes_of(&encode_form_query(entries)),
            "application/x-www-form-urlencoded".to_owned(),
        )
    }
}

/// One field of a form that was submitted.
#[derive(Debug, Clone, PartialEq, Eq)]
pub enum FormEntry {
    Text { name: String, value: String },
    /// An upload. It has no bytes this engine ever had.
    File { name: String },
}

/// The fields that have a value.
pub open spec fn text_entries(form: Seq<FormEntry>) -> Seq<(Seq<char>, Seq<char>)>
    decreases form.len(),
{
    if form.len() == 0 {
        Seq::empty()
    } else {
        let before = text_entries(form.drop_last());
        match form.last() {
            FormEntry::Text { name, value } => before.push((name@, value@)),
            FormEntry::File { .. } => before,
        }
    }
}

/// The submission that a form's own algorithm produced. An upload is dropped:
/// the field is absent rather than empty, so a server can tell.
pub fn capture_submission(
    url: Url,
    document: Url,
    method: String,
    form: Option<&Vec<FormEntry>>,
    content_type: Option<String>,
) -> (r: Submission)
    ensures
        r.url == url,
        r.document == document,
        r.method == method,
        match form {
            Some(entries) => r.body@ == encode_utf8(urlencoded(text_entries(entries@)))
                && string_view(r.content_type) == Some("application/x-www-form-urlencoded"@),
            None => r.body@.len() == 0 && r.content_type == content_type,
        },
{
    match form {
        Some(entries) => {
            let mut kept: Vec<(String, String)> = Vec::new();
            let mut i: usize = 0;
            assert(pairs(kept@) =~= text_entries(entries@.take(0)));
            while i < entries.len()
                invariant
                    i <= entries.len(),
                    pairs(kept@) == text_entries(entries@.take(i as int)),
                decreases entries.len() - i,
            {
                let ghost before = kept@;
                match &entries[i] {
                    FormEntry::Text { name, value } => {
                        kept.push((name.clone(), value.clone()));
                        assert(pairs(kept@) =~= pairs(before).push((name@, value@)));
                    },
                    FormEntry::File { .. } => {},
                }
                i += 1;
                assert(entries@.take(i as int).drop_last() =~= entries@.take(i - 1));
                assert(entries@.take(i as int).last() == entries@[i - 1]);
            }
            assert(entries@.take(i as int) =~= entries@);
            Submission {
                url,
                document,
                method,
                body: bytes_of(&encode_form_query(kept.as_slice())),
                content_type: Some("application/x-www-form-urlencoded".to_owned()),
            }
        },
        None => Submission { url, document, method, body: Vec::new(), content_type },
    }
}

proof fn lemma_escaped_is_plain(bytes: Seq<u8>)
    ensures
        forall|i: int|
            0 <= i < escaped(bytes).len() ==> #[trigger] escaped(bytes)[i] != '&' && escaped(
                bytes,
            )[i] != '=' && escaped(bytes)[i] != ' ',
    decreases bytes.len(),
{
    if bytes.len() > 0 {
        lemma_escaped_is_plain(bytes.drop_last());
        let b = bytes.last();
        let e = escaped_byte(b);
        assert forall|i: int| 0 <= i < e.len() implies #[trigger] e[i] != '&' && e[i] != '='
            && e[i] != ' ' by {
            if is_unreserved(b) {
                assert(e[0] == b as char);
            }
        }
        let before = escaped(bytes.drop_last());
        assert forall|i: int| 0 <= i < escaped(bytes).len() implies #[trigger] escaped(bytes)[i]
            != '&' && escaped(bytes)[i] != '=' && escaped(bytes)[i] != ' ' by {
            if i < before.len() {
                assert(escaped(bytes)[i] == before[i]);
            } else {
                assert(escaped(bytes)[i] == e[i - before.len()]);
            }
        }
    }
}

/// What a field holds cannot pass for the end of it: no separator comes out of
/// a name or a value.
pub proof fn law_a_field_cannot_forge_another(text: Seq<char>)
    ensures
        !escaped(encode_utf8(text)).contains('&'),
        !escaped(encode_utf8(text)).contains('='),
{
    lemma_escaped_is_plain(encode_utf8(text));
}

// ------------------------------------------------------------ read back

/// What a hexadecimal digit counts.
pub open spec fn hex_value(c: char) -> Option<int> {
    if '0' <= c <= '9' {
        Some(c as int - '0' as int)
    } else if 'A' <= c <= 'F' {
        Some(c as int - 'A' as int + 10)
    } else if 'a' <= c <= 'f' {
        Some(c as int - 'a' as int + 10)
    } else {
        None
    }
}

/// The bytes that an escaped text stands for.
pub open spec fn unescaped(s: Seq<char>) -> Seq<u8>
    decreases s.len(),
{
    if s.len() == 0 {
        Seq::empty()
    } else if s[0] == '+' {
        seq![0x20u8] + unescaped(s.drop_first())
    } else if s[0] == '%' && s.len() >= 3 && hex_value(s[1]) is Some && hex_value(s[2]) is Some {
        seq![(16 * hex_value(s[1])->Some_0 + hex_value(s[2])->Some_0) as u8] + unescaped(s.skip(3))
    } else {
        encode_utf8(seq![s[0]]) + unescaped(s.drop_first())
    }
}

/// One `name=value` of a query.
pub open spec fn query_pair(piece: Seq<char>) -> (Seq<char>, Seq<char>) {
    match cut(piece, "="@) {
        Some((name, value)) => (decode_utf8(unescaped(name)), decode_utf8(unescaped(value))),
        None => (decode_utf8(unescaped(piece)), Seq::empty()),
    }
}

pub open spec fn pairs_read(pieces: Seq<Seq<char>>) -> Seq<(Seq<char>, Seq<char>)>
    decreases pieces.len(),
{
    if pieces.len() == 0 {
        Seq::empty()
    } else if pieces.last().len() == 0 {
        pairs_read(pieces.drop_last())
    } else {
        pairs_read(pieces.drop_last()).push(query_pair(pieces.last()))
    }
}

/// What a server reads of a query: its pieces between `&`, the empty ones left
/// out, each a name and a value.
pub open spec fn query_pairs(query: Seq<char>) -> Seq<(Seq<char>, Seq<char>)> {
    pairs_read(split_on(query, '&'))
}

proof fn lemma_escaped_front(bytes: Seq<u8>)
    requires
        bytes.len() > 0,
    ensures
        escaped(bytes) == escaped_byte(bytes[0]) + escaped(bytes.drop_first()),
    decreases bytes.len(),
{
    if bytes.len() == 1 {
        assert(bytes.drop_last() =~= Seq::empty());
        assert(bytes.drop_first() =~= Seq::empty());
        assert(escaped(bytes) =~= escaped_byte(bytes[0]) + escaped(bytes.drop_first()));
    } else {
        let front = bytes.drop_last();
        lemma_escaped_front(front);
        assert(front.drop_first() =~= bytes.drop_first().drop_last());
        assert(escaped(bytes) =~= escaped_byte(bytes[0]) + escaped(bytes.drop_first()));
    }
}

proof fn lemma_ascii_is_itself(c: char)
    requires
        (c as u32) < 0x80,
    ensures
        encode_utf8(seq![c]) == seq![c as u8],
{
    let n = c as u32;
    assert(seq![c].drop_first() =~= Seq::empty());
    assert(encode_utf8(Seq::<char>::empty()) =~= Seq::empty());
    assert((n & 0x7F) == n) by (bit_vector)
        requires
            n < 0x80,
    ;
    assert(encode_utf8(seq![c]) =~= seq![c as u8]);
}

/// Unescaping gives back what was escaped.
proof fn lemma_unescaped(bytes: Seq<u8>)
    ensures
        unescaped(escaped(bytes)) == bytes,
    decreases bytes.len(),
{
    if bytes.len() == 0 {
        assert(unescaped(escaped(bytes)) =~= bytes);
    } else {
        lemma_escaped_front(bytes);
        let b = bytes[0];
        let rest = bytes.drop_first();
        lemma_unescaped(rest);
        let s = escaped(bytes);
        let e = escaped_byte(b);
        assert(s[0] == e[0]);
        if is_unreserved(b) {
            assert(s.drop_first() =~= escaped(rest));
            lemma_ascii_is_itself(b as char);
        } else if b == 0x20 {
            assert(s.drop_first() =~= escaped(rest));
        } else {
            assert(s[1] == e[1] && s[2] == e[2]);
            assert(s.skip(3) =~= escaped(rest));
            assert(hex_value(upper_hex(b as int / 16)) == Some(b as int / 16));
            assert(hex_value(upper_hex(b as int % 16)) == Some(b as int % 16));
        }
        assert(unescaped(s) =~= seq![b] + rest);
        assert(seq![b] + rest =~= bytes);
    }
}

/// What holds no separator lengthens the last piece.
proof fn lemma_split_lengthened(a: Seq<char>, p: Seq<char>)
    requires
        !p.contains('&'),
    ensures
        split_on(a, '&').len() > 0,
        split_on(a + p, '&') == split_on(a, '&').drop_last().push(split_on(a, '&').last() + p),
    decreases p.len(),
{
    lemma_split_is_not_empty(a);
    let pieces = split_on(a, '&');
    if p.len() == 0 {
        assert(a + p =~= a);
        assert(pieces.last() + p =~= pieces.last());
        assert(pieces.drop_last().push(pieces.last()) =~= pieces);
    } else {
        let front = p.drop_last();
        assert forall|i: int| 0 <= i < front.len() implies front[i] != '&' by {
            assert(p.contains(p[i]));
        }
        lemma_split_lengthened(a, front);
        assert((a + p).drop_last() =~= a + front);
        assert((a + p).last() == p.last());
        assert(p.contains(p.last()));
        let so_far = pieces.drop_last().push(pieces.last() + front);
        assert(so_far.drop_last() =~= pieces.drop_last());
        assert((pieces.last() + front).push(p.last()) =~= pieces.last() + p);
    }
}

proof fn lemma_split_is_not_empty(a: Seq<char>)
    ensures
        split_on(a, '&').len() > 0,
    decreases a.len(),
{
    if a.len() > 0 {
        lemma_split_is_not_empty(a.drop_last());
    }
}

proof fn lemma_split_at_the_last(a: Seq<char>, p: Seq<char>)
    requires
        !p.contains('&'),
    ensures
        split_on(a + "&"@ + p, '&') == split_on(a, '&').push(p),
        split_on(p, '&') == seq![p],
{
    reveal_strlit("&");
    let b = a + "&"@;
    assert(b.drop_last() =~= a);
    assert(b.last() == '&');
    let pieces = split_on(a, '&');
    assert(split_on(b, '&') =~= pieces.push(Seq::empty()));
    lemma_split_lengthened(b, p);
    assert(pieces.push(Seq::empty()).drop_last() =~= pieces);
    assert(Seq::<char>::empty() + p =~= p);
    lemma_split_lengthened(Seq::empty(), p);
    let none = split_on(Seq::<char>::empty(), '&');
    assert(none.drop_last().push(p) =~= seq![p]);
}

proof fn lemma_pair_is_read(name: Seq<char>, value: Seq<char>)
    ensures
        ({
            let piece = escaped(encode_utf8(name)) + "="@ + escaped(encode_utf8(value));
            &&& query_pair(piece) == (name, value)
            &&& piece.len() > 0
            &&& !piece.contains('&')
        }),
{
    let n = escaped(encode_utf8(name));
    let v = escaped(encode_utf8(value));
    let piece = n + "="@ + v;
    reveal_strlit("=");
    lemma_escaped_is_plain(encode_utf8(name));
    lemma_escaped_is_plain(encode_utf8(value));
    let k = n.len() as int;
    assert(piece.subrange(k, k + 1) =~= "="@);
    assert(occurs_at(piece, "="@, k));
    lemma_find_from(piece, "="@, 0);
    let at = find_from(piece, "="@, 0)->Some_0;
    if at < k {
        assert(piece.subrange(at, at + 1)[0] == n[at]);
    }
    assert(at == k);
    assert(piece.subrange(0, k) =~= n);
    assert(piece.subrange(k + 1, piece.len() as int) =~= v);
    lemma_unescaped(encode_utf8(name));
    lemma_unescaped(encode_utf8(value));
    encode_utf8_decode_utf8(name);
    encode_utf8_decode_utf8(value);
    assert forall|i: int| 0 <= i < piece.len() implies piece[i] != '&' by {
        if i < k {
            assert(piece[i] == n[i]);
        } else if i > k {
            assert(piece[i] == v[i - k - 1]);
        }
    }
}

/// What a form sends is read back as it was filled in: parsing the query of any
/// entries, whatever their names and values hold, gives those entries.
pub proof fn law_a_query_is_read_back(entries: Seq<(Seq<char>, Seq<char>)>)
    ensures
        query_pairs(urlencoded(entries)) == entries,
    decreases entries.len(),
{
    if entries.len() == 0 {
        let none = split_on(Seq::<char>::empty(), '&');
        assert(none.drop_last() =~= Seq::empty());
        assert(none.last().len() == 0);
        assert(pairs_read(none.drop_last()) =~= Seq::empty());
        assert(query_pairs(urlencoded(entries)) =~= entries);
    } else {
        let (name, value) = entries.last();
        let piece = escaped(encode_utf8(name)) + "="@ + escaped(encode_utf8(value));
        lemma_pair_is_read(name, value);
        let before = urlencoded(entries.drop_last());
        law_a_query_is_read_back(entries.drop_last());
        lemma_split_at_the_last(before, piece);
        if entries.len() == 1 {
            let one = seq![piece];
            assert(one.drop_last() =~= Seq::empty());
            assert(one.last() == piece);
            assert(pairs_read(one.drop_last()) =~= Seq::empty());
            assert(pairs_read(one) =~= seq![(name, value)]);
            assert(entries =~= seq![(name, value)]);
        } else {
            let all = split_on(before, '&').push(piece);
            assert(all.drop_last() =~= split_on(before, '&'));
            assert(entries =~= entries.drop_last().push((name, value)));
        }
    }
}

// ---------------------------------------------------------- form by form

/// A form is sent as plain text or in parts exactly where its encoding,
/// trimmed, says so, and as a query everywhere else, and each is sent under
/// its own content type.
pub proof fn law_how_a_form_is_sent(
    enctype: &str,
    entries: &[(String, String)],
    boundary: &str,
    r: (Vec<u8>, String),
)
    requires
        call_ensures(encode_form_body, (enctype, entries, boundary), r),
    ensures
        ({
            let kind = trimmed(enctype@);
            let all = pairs(entries@);
            &&& kind == "text/plain"@ ==> r.1@ == "text/plain;charset=UTF-8"@ && r.0@
                == encode_utf8(plain_form(all))
            &&& kind == "multipart/form-data"@ ==> r.1@ == "multipart/form-data; boundary="@
                + boundary@ && r.0@ == encode_utf8(multipart_form(all, boundary@))
            &&& kind != "text/plain"@ && kind != "multipart/form-data"@ ==> r.1@
                == "application/x-www-form-urlencoded"@ && r.0@ == encode_utf8(urlencoded(all))
        }),
{
    reveal_strlit("text/plain");
    reveal_strlit("multipart/form-data");
    assert("text/plain"@.len() == 10 && "multipart/form-data"@.len() == 19);
}

/// A plain form is one line for each field, its name and its value as they
/// are with an equals sign between.
pub proof fn law_a_plain_form_is_line_by_line(
    entries: Seq<(Seq<char>, Seq<char>)>,
    name: Seq<char>,
    value: Seq<char>,
)
    ensures
        plain_form(Seq::empty()) == Seq::<char>::empty(),
        plain_form(entries.push((name, value))) == plain_form(entries) + (name + "="@ + value
            + "\r\n"@),
{
    let all = entries.push((name, value));
    assert(all.drop_last() =~= entries);
    assert(plain_form(all) =~= plain_form(entries) + (name + "="@ + value + "\r\n"@));
}

/// A form in parts is one part for each field, the field's name on a line of
/// its own behind the boundary and the value as it is behind a blank line, and
/// the boundary once more at the end, marked as the last.
pub proof fn law_a_form_in_parts_is_part_by_part(
    entries: Seq<(Seq<char>, Seq<char>)>,
    name: Seq<char>,
    value: Seq<char>,
    boundary: Seq<char>,
)
    requires
        !name.contains('"'),
        !name.contains('\r'),
        !name.contains('\n'),
    ensures
        multipart_form(Seq::empty(), boundary) == "--"@ + boundary + "--\r\n"@,
        ({
            let end = "--"@ + boundary + "--\r\n"@;
            let before = multipart_form(entries, boundary);
            multipart_form(entries.push((name, value)), boundary) == before.take(
                before.len() - end.len(),
            ) + ("--"@ + boundary + "\r\nContent-Disposition: form-data; name=\""@ + name
                + "\"\r\n\r\n"@ + value + "\r\n"@) + end
        }),
{
    let end = "--"@ + boundary + "--\r\n"@;
    let none = Seq::<(Seq<char>, Seq<char>)>::empty();
    assert(multipart_form(none, boundary) =~= end);
    let all = entries.push((name, value));
    assert(all.drop_last() =~= entries);
    law_a_bare_name_is_kept(name);
    let before = multipart_form(entries, boundary);
    assert(before =~= form_parts(entries, boundary) + end);
    assert(before.take(before.len() - end.len()) =~= form_parts(entries, boundary));
    let part = "--"@ + boundary + "\r\nContent-Disposition: form-data; name=\""@ + name
        + "\"\r\n\r\n"@ + value + "\r\n"@;
    assert(form_parts(all, boundary) =~= form_parts(entries, boundary) + part);
    assert(multipart_form(all, boundary) =~= form_parts(entries, boundary) + part + end);
}

/// A field's name is kept as it is in a form in parts, as long as it cannot
/// end the line or the quotes that it stands in.
pub proof fn law_a_bare_name_is_kept(name: Seq<char>)
    requires
        !name.contains('"'),
        !name.contains('\r'),
        !name.contains('\n'),
    ensures
        quoted_name(name) == name,
    decreases name.len(),
{
    if name.len() > 0 {
        let front = name.drop_last();
        assert forall|c: char| front.contains(c) implies name.contains(c) by {
            let k = choose|k: int| 0 <= k < front.len() && front[k] == c;
            assert(name[k] == c);
        }
        law_a_bare_name_is_kept(front);
        assert(name.contains(name[name.len() - 1]));
        assert(quoted_name(name) =~= name);
    }
}

/// A quote, a return and a line feed in a field's name are written by their
/// numbers, so that no name ends the line or the quotes that it stands in.
pub proof fn law_a_name_cannot_leave_its_quotes(before: Seq<char>, after: Seq<char>)
    ensures
        quoted_name(before + after) == quoted_name(before) + quoted_name(after),
        quoted_name(seq!['"']) == "%22"@,
        quoted_name(seq!['\r']) == "%0D"@,
        quoted_name(seq!['\n']) == "%0A"@,
        !quoted_name(after).contains('"'),
        !quoted_name(after).contains('\r'),
        !quoted_name(after).contains('\n'),
    decreases after.len(),
{
    reveal_strlit("%22");
    reveal_strlit("%0D");
    reveal_strlit("%0A");
    let none = Seq::<char>::empty();
    assert(quoted_name(none) =~= none);
    assert(seq!['"'].drop_last() =~= none);
    assert(seq!['\r'].drop_last() =~= none);
    assert(seq!['\n'].drop_last() =~= none);
    assert(quoted_name(seq!['"']) =~= "%22"@);
    assert(quoted_name(seq!['\r']) =~= "%0D"@);
    assert(quoted_name(seq!['\n']) =~= "%0A"@);
    if after.len() == 0 {
        assert(before + after =~= before);
        assert(quoted_name(before + after) =~= quoted_name(before) + quoted_name(after));
    } else {
        let front = after.drop_last();
        law_a_name_cannot_leave_its_quotes(before, front);
        assert((before + after).drop_last() =~= before + front);
        assert(quoted_name(before + after) =~= quoted_name(before) + quoted_name(after));
        let own = quoted_name_char(after.last());
        let sofar = quoted_name(front);
        assert forall|c: char| (c == '"' || c == '\r' || c == '\n') implies !(#[trigger] quoted_name(
            after,
        ).contains(c)) by {
            if quoted_name(after).contains(c) {
                let all = quoted_name(after);
                let k = choose|k: int| 0 <= k < all.len() && all[k] == c;
                if k < sofar.len() {
                    assert(sofar[k] == c);
                    assert(sofar.contains(c));
                } else {
                    assert(own[k - sofar.len()] == c);
                }
            }
        }
    }
}

/// What a script submits are its text fields, in order. A file is left out.
pub proof fn law_what_a_submission_keeps(form: Seq<FormEntry>, entry: FormEntry)
    ensures
        text_entries(Seq::empty()) == Seq::<(Seq<char>, Seq<char>)>::empty(),
        entry matches FormEntry::Text { name, value } ==> text_entries(form.push(entry))
            == text_entries(form).push((name@, value@)),
        entry is File ==> text_entries(form.push(entry)) == text_entries(form),
{
    assert(form.push(entry).drop_last() =~= form);
}

/// A form that a script submits goes out as a query of its text fields, to
/// where it points, and a submission without one goes out without a body.
pub proof fn law_what_a_scripted_submission_is(
    url: Url,
    document: Url,
    method: String,
    form: Option<&Vec<FormEntry>>,
    content_type: Option<String>,
    r: Submission,
)
    requires
        call_ensures(capture_submission, (url, document, method, form, content_type), r),
    ensures
        r.url == url && r.document == document && r.method == method,
        form is Some ==> r.body@ == encode_utf8(urlencoded(text_entries(form->Some_0@)))
            && r.content_type is Some && r.content_type->Some_0@
            == "application/x-www-form-urlencoded"@,
        form is None ==> r.body@.len() == 0 && r.content_type == content_type,
{
}

} // verus!
