//! Reading a response body: the size cap, and the encodings this engine asks
//! for.
use vstd::prelude::*;

use crate::text::{
    decimal, decimal_text, lower, lowered, same, split, split_on, texts, trim, trimmed,
};

verus! {

/// What this engine will accept compressed, and can decode.
///
/// Kept beside the decoder: a header that advertises an encoding the decoder
/// does not handle is a promise the engine cannot keep.
pub const ACCEPT_ENCODING: &'static str = "gzip, br, deflate";

pub open spec fn bytes_result(r: Result<Vec<u8>, String>) -> Result<Seq<u8>, Seq<char>> {
    match r {
        Ok(v) => Ok(v@),
        Err(e) => Err(e@),
    }
}

/// What reading `flate2`'s `GzDecoder` over the bytes gives, up to a limit.
pub uninterp spec fn gunzipped(raw: Seq<u8>, limit: u64) -> Result<Seq<u8>, Seq<char>>;

/// What reading `flate2`'s `ZlibDecoder` over the bytes gives, up to a limit.
pub uninterp spec fn unzlibbed(raw: Seq<u8>, limit: u64) -> Result<Seq<u8>, Seq<char>>;

/// What reading `flate2`'s `DeflateDecoder` over the bytes gives, up to a limit.
pub uninterp spec fn inflated(raw: Seq<u8>, limit: u64) -> Result<Seq<u8>, Seq<char>>;

/// What reading `brotli`'s `Decompressor` over the bytes gives, up to a limit.
pub uninterp spec fn unbrotlied(raw: Seq<u8>, limit: u64) -> Result<Seq<u8>, Seq<char>>;

/// Reads a `flate2::read::GzDecoder` to its end, or until `limit` bytes have
/// come out. What comes out, or the reader's error as text, is what
/// [`gunzipped`] names, and `take` lets no more than `limit` bytes through.
#[verifier::external_body]
fn gunzip(raw: &[u8], limit: u64) -> (r: Result<Vec<u8>, String>)
    ensures
        bytes_result(r) == gunzipped(raw@, limit),
        r is Ok ==> r->Ok_0@.len() <= limit,
{
    let mut out = Vec::new();
    let mut reader = std::io::Read::take(flate2::read::GzDecoder::new(raw), limit);
    match std::io::Read::read_to_end(&mut reader, &mut out) {
        Ok(_) => Ok(out),
        Err(e) => Err(e.to_string()),
    }
}

/// Reads a `flate2::read::ZlibDecoder` to its end, or until `limit` bytes have
/// come out. What comes out, or the reader's error as text, is what
/// [`unzlibbed`] names, and `take` lets no more than `limit` bytes through.
#[verifier::external_body]
fn unzlib(raw: &[u8], limit: u64) -> (r: Result<Vec<u8>, String>)
    ensures
        bytes_result(r) == unzlibbed(raw@, limit),
        r is Ok ==> r->Ok_0@.len() <= limit,
{
    let mut out = Vec::new();
    let mut reader = std::io::Read::take(flate2::read::ZlibDecoder::new(raw), limit);
    match std::io::Read::read_to_end(&mut reader, &mut out) {
        Ok(_) => Ok(out),
        Err(e) => Err(e.to_string()),
    }
}

/// Reads a `flate2::read::DeflateDecoder` to its end, or until `limit` bytes
/// have come out. What comes out, or the reader's error as text, is what
/// [`inflated`] names, and `take` lets no more than `limit` bytes through.
#[verifier::external_body]
fn inflate(raw: &[u8], limit: u64) -> (r: Result<Vec<u8>, String>)
    ensures
        bytes_result(r) == inflated(raw@, limit),
        r is Ok ==> r->Ok_0@.len() <= limit,
{
    let mut out = Vec::new();
    let mut reader = std::io::Read::take(flate2::read::DeflateDecoder::new(raw), limit);
    match std::io::Read::read_to_end(&mut reader, &mut out) {
        Ok(_) => Ok(out),
        Err(e) => Err(e.to_string()),
    }
}

/// Reads a `brotli::Decompressor` to its end, or until `limit` bytes have come
/// out. What comes out, or the reader's error as text, is what [`unbrotlied`]
/// names, and `take` lets no more than `limit` bytes through.
#[verifier::external_body]
fn unbrotli(raw: &[u8], limit: u64) -> (r: Result<Vec<u8>, String>)
    ensures
        bytes_result(r) == unbrotlied(raw@, limit),
        r is Ok ==> r->Ok_0@.len() <= limit,
{
    let mut out = Vec::new();
    let mut reader = std::io::Read::take(brotli::Decompressor::new(raw, 4096), limit);
    match std::io::Read::read_to_end(&mut reader, &mut out) {
        Ok(_) => Ok(out),
        Err(e) => Err(e.to_string()),
    }
}

/// The encodings that a `Content-Encoding` stacks. `identity` is no layer.
pub open spec fn layers(encoding: Seq<char>) -> Seq<Seq<char>> {
    split_on(encoding, ',').map_values(|p: Seq<char>| trimmed(p)).filter(
        |t: Seq<char>| t.len() > 0 && lowered(t) != "identity"@,
    )
}

/// The name of the one encoding to decode, empty where there is none.
pub open spec fn only_layer(encoding: Seq<char>) -> Seq<char> {
    if layers(encoding).len() > 0 {
        layers(encoding)[0]
    } else {
        Seq::empty()
    }
}

/// The bytes that a decoder gives, or its complaint; `None` for an encoding
/// there is no decoder for. `deflate` is zlib, and raw where it is not.
pub open spec fn decoder_output(
    raw: Seq<u8>,
    name: Seq<char>,
    limit: u64,
) -> Option<Result<Seq<u8>, Seq<char>>> {
    if name == "gzip"@ || name == "x-gzip"@ {
        Some(gunzipped(raw, limit))
    } else if name == "deflate"@ {
        if unzlibbed(raw, limit) is Ok {
            Some(unzlibbed(raw, limit))
        } else {
            Some(inflated(raw, limit))
        }
    } else if name == "br"@ {
        Some(unbrotlied(raw, limit))
    } else {
        None
    }
}

/// What is made of what the decoder gave: nothing larger than the cap.
pub open spec fn decoded_as(
    name: Seq<char>,
    cap: u64,
    read: Result<Seq<u8>, Seq<char>>,
) -> Result<Seq<u8>, Seq<char>> {
    match read {
        Err(e) => Err("the "@ + name + " response could not be decoded: "@ + e),
        Ok(bytes) => if bytes.len() > cap {
            Err(
                "the response decompresses past the "@ + decimal(cap as nat)
                    + " byte cap, so it was not read. A small response that expands without limit is how a page exhausts the memory of whatever is reading it."@,
            )
        } else {
            Ok(bytes)
        },
    }
}

/// A body in one encoding, decoded under the cap.
pub open spec fn decoded(raw: Seq<u8>, encoding: Seq<char>, cap: u64) -> Result<
    Seq<u8>,
    Seq<char>,
> {
    let name = only_layer(encoding);
    if layers(encoding).len() > 1 {
        Err(
            "the response stacks encodings (`"@ + trimmed(encoding)
                + "`), which this engine decodes one layer at a time. It asked for gzip, br, deflate."@,
        )
    } else {
        match decoder_output(raw, name, (cap + 1) as u64) {
            None => Err(
                "the response is `"@ + name
                    + "`-encoded, which this engine cannot decode. It asked for gzip, br, deflate."@,
            ),
            Some(read) => decoded_as(name, cap, read),
        }
    }
}

fn list_layers(encoding: &str) -> (r: Vec<String>)
    ensures
        texts(r@) == layers(encoding@),
{
    let pieces = split(encoding, ',');
    let ghost all = split_on(encoding@, ',');
    let ghost f = |p: Seq<char>| trimmed(p);
    let ghost keep = |t: Seq<char>| t.len() > 0 && lowered(t) != "identity"@;
    let mut out: Vec<String> = Vec::new();
    let mut i: usize = 0;
    proof {
        reveal(Seq::filter);
        assert(texts(out@) =~= all.take(0).map_values(f).filter(keep));
    }
    while i < pieces.len()
        invariant
            i <= pieces.len(),
            texts(pieces@) == all,
            f == (|p: Seq<char>| trimmed(p)),
            keep == (|t: Seq<char>| t.len() > 0 && lowered(t) != "identity"@),
            texts(out@) == all.take(i as int).map_values(f).filter(keep),
        decreases pieces.len() - i,
    {
        assert(all[i as int] == pieces@[i as int]@);
        let t = trim(&pieces[i]);
        let ghost before = out@;
        let ghost word = t@;
        if !t.as_str().is_empty() && !same(&lower(&t), "identity") {
            out.push(t);
            assert(texts(out@) =~= texts(before).push(word));
        }
        i += 1;
        proof {
            reveal(Seq::filter);
            let now = all.take(i as int).map_values(f);
            assert(now.drop_last() =~= all.take(i - 1).map_values(f));
            assert(now.last() == word);
        }
    }
    assert(all.take(i as int) =~= all);
    out
}

/// What is made of what a decoder gave.
pub fn accept_decoded(name: &str, cap: u64, read: Result<Vec<u8>, String>) -> (r: Result<
    Vec<u8>,
    String,
>)
    ensures
        bytes_result(r) == decoded_as(name@, cap, bytes_result(read)),
{
    match read {
        Err(e) => {
            let mut why = "the ".to_owned();
            why.append(name);
            why.append(" response could not be decoded: ");
            why.append(&e);
            Err(why)
        },
        Ok(bytes) => {
            if bytes.len() as u64 > cap {
                let mut why = "the response decompresses past the ".to_owned();
                why.append(&decimal_text(cap));
                why.append(
                    " byte cap, so it was not read. A small response that expands without limit is how a page exhausts the memory of whatever is reading it.",
                );
                return Err(why);
            }
            Ok(bytes)
        },
    }
}

/// Decode a body under the cap, so one hostile response cannot become this
/// process's memory ceiling. One encoding, or a refusal.
pub fn decode_capped(raw: &[u8], encoding: &str, cap: u64) -> (r: Result<Vec<u8>, String>)
    requires
        cap < u64::MAX,
    ensures
        bytes_result(r) == decoded(raw@, encoding@, cap),
{
    let found = list_layers(encoding);
    if found.len() > 1 {
        let mut why = "the response stacks encodings (`".to_owned();
        why.append(&trim(encoding));
        why.append(
            "`), which this engine decodes one layer at a time. It asked for gzip, br, deflate.",
        );
        return Err(why);
    }
    let name = if found.len() > 0 {
        assert(texts(found@)[0] == found@[0]@);
        found[0].clone()
    } else {
        String::new()
    };
    let limit = cap + 1;
    let read = if same(&name, "gzip") || same(&name, "x-gzip") {
        gunzip(raw, limit)
    } else if same(&name, "deflate") {
        match unzlib(raw, limit) {
            Ok(out) => Ok(out),
            Err(_) => inflate(raw, limit),
        }
    } else if same(&name, "br") {
        unbrotli(raw, limit)
    } else {
        let mut why = "the response is `".to_owned();
        why.append(&name);
        why.append(
            "`-encoded, which this engine cannot decode. It asked for gzip, br, deflate.",
        );
        return Err(why);
    };
    accept_decoded(&name, cap, read)
}

/// A body that was read up to one byte past the cap, accepted or not.
pub open spec fn within_cap(read: Result<Seq<u8>, Seq<char>>, cap: u64) -> Result<
    Seq<u8>,
    Seq<char>,
> {
    match read {
        Err(e) => Err("failed to read the response body: "@ + e),
        Ok(bytes) => if bytes.len() > cap {
            Err("response exceeds the "@ + decimal(cap as nat) + " byte cap"@)
        } else {
            Ok(bytes)
        },
    }
}

/// Accept a body that was read up to one byte past the cap.
pub fn read_capped(read: Result<Vec<u8>, String>, cap: u64) -> (r: Result<Vec<u8>, String>)
    ensures
        bytes_result(r) == within_cap(bytes_result(read), cap),
{
    match read {
        Err(e) => {
            let mut why = "failed to read the response body: ".to_owned();
            why.append(&e);
            Err(why)
        },
        Ok(bytes) => {
            if bytes.len() as u64 > cap {
                let mut why = "response exceeds the ".to_owned();
                why.append(&decimal_text(cap));
                why.append(" byte cap");
                return Err(why);
            }
            Ok(bytes)
        },
    }
}

/// Nothing larger than the cap is ever handed on, compressed or not.
pub proof fn law_nothing_past_the_cap(
    raw: Seq<u8>,
    encoding: Seq<char>,
    read: Result<Seq<u8>, Seq<char>>,
    cap: u64,
)
    ensures
        decoded(raw, encoding, cap) matches Ok(bytes) ==> bytes.len() <= cap,
        within_cap(read, cap) matches Ok(bytes) ==> bytes.len() <= cap,
{
}

/// Two layers are refused, whatever they are: this engine decodes one.
pub proof fn law_stacked_encodings_are_refused(raw: Seq<u8>, encoding: Seq<char>, cap: u64)
    requires
        layers(encoding).len() > 1,
    ensures
        decoded(raw, encoding, cap) is Err,
{
}

proof fn lemma_filter_one<T>(s: Seq<T>, f: spec_fn(T) -> bool, i: int)
    requires
        0 <= i < s.len(),
        f(s[i]),
        forall|j: int| 0 <= j < s.len() && j != i ==> !f(#[trigger] s[j]),
    ensures
        s.filter(f) == seq![s[i]],
    decreases s.len(),
{
    reveal(Seq::filter);
    let front = s.drop_last();
    if i == s.len() - 1 {
        lemma_filter_nothing(front, f);
        assert(s.filter(f) =~= seq![s[i]]);
    } else {
        assert(!f(s[s.len() - 1]));
        lemma_filter_one(front, f, i);
    }
}

proof fn lemma_filter_nothing<T>(s: Seq<T>, f: spec_fn(T) -> bool)
    requires
        forall|j: int| 0 <= j < s.len() ==> !f(#[trigger] s[j]),
    ensures
        s.filter(f).len() == 0,
    decreases s.len(),
{
    reveal(Seq::filter);
    if s.len() > 0 {
        assert(!f(s[s.len() - 1]));
        let front = s.drop_last();
        assert forall|j: int| 0 <= j < front.len() implies !f(#[trigger] front[j]) by {
            assert(front[j] == s[j]);
        }
        lemma_filter_nothing(front, f);
    }
}

proof fn lemma_filter_two<T>(s: Seq<T>, f: spec_fn(T) -> bool, i: int, j: int)
    requires
        0 <= i < j < s.len(),
        f(s[i]),
        f(s[j]),
    ensures
        s.filter(f).len() >= 2,
{
    let a = s.take(j);
    let b = s.skip(j);
    assert(s =~= a + b);
    Seq::filter_distributes_over_add(a, b, f);
    a.lemma_filter_contains(f, i);
    assert(a.filter(f).contains(a[i]));
    assert(b[0] == s[j]);
    b.lemma_filter_contains(f, 0);
    assert(b.filter(f).contains(b[0]));
}

/// Whether the piece at a place between the commas is an encoding at all:
/// neither blank nor `identity` in any case.
pub open spec fn is_layer(encoding: Seq<char>, i: int) -> bool {
    let piece = trimmed(split_on(encoding, ',')[i]);
    0 <= i < split_on(encoding, ',').len() && piece.len() > 0 && lowered(piece) != "identity"@
}

/// A body under one encoding is what that encoding's decoder makes of it, as
/// long as that keeps to the cap: `gzip` and `x-gzip` by the one, `br` by
/// another, and `deflate` in the zlib wrapping where it has one and bare where
/// it does not. Any other encoding is an error, and so are two, or none.
pub proof fn law_each_encoding_has_its_decoder(
    raw: Seq<u8>,
    encoding: Seq<char>,
    cap: u64,
    i: int,
)
    requires
        cap < u64::MAX,
    ensures
        is_layer(encoding, i) && (forall|j: int| j != i ==> !(#[trigger] is_layer(encoding, j))) ==> {
            let name = trimmed(split_on(encoding, ',')[i]);
            let limit = (cap + 1) as u64;
            let read = if name == "br"@ {
                unbrotlied(raw, limit)
            } else if name == "deflate"@ && unzlibbed(raw, limit) is Ok {
                unzlibbed(raw, limit)
            } else if name == "deflate"@ {
                inflated(raw, limit)
            } else {
                gunzipped(raw, limit)
            };
            &&& decoded(raw, encoding, cap) is Ok <==> (name == "gzip"@ || name == "x-gzip"@ || name
                == "deflate"@ || name == "br"@) && read is Ok && read->Ok_0.len() <= cap
            &&& decoded(raw, encoding, cap) is Ok ==> decoded(raw, encoding, cap) == read
        },
        forall|j: int| #[trigger]
            is_layer(encoding, j) && is_layer(encoding, i) && j != i ==> decoded(raw, encoding, cap)
                is Err,
        (forall|j: int| !(#[trigger] is_layer(encoding, j))) ==> decoded(raw, encoding, cap) is Err,
{
    reveal_strlit("gzip");
    reveal_strlit("x-gzip");
    reveal_strlit("deflate");
    reveal_strlit("br");
    assert("gzip"@.len() == 4 && "x-gzip"@.len() == 6 && "deflate"@.len() == 7 && "br"@.len() == 2);
    let pieces = split_on(encoding, ',').map_values(|p: Seq<char>| trimmed(p));
    let counts = |t: Seq<char>| t.len() > 0 && lowered(t) != "identity"@;
    assert(layers(encoding) == pieces.filter(counts));
    assert forall|j: int| 0 <= j < pieces.len() implies (counts(#[trigger] pieces[j]) <==> is_layer(
        encoding,
        j,
    )) by {}
    if is_layer(encoding, i) && (forall|j: int| j != i ==> !(#[trigger] is_layer(encoding, j))) {
        assert(counts(pieces[i]));
        assert forall|j: int| 0 <= j < pieces.len() && j != i implies !counts(
            #[trigger] pieces[j],
        ) by {
            assert(!is_layer(encoding, j));
        }
        lemma_filter_one(pieces, counts, i);
        assert(layers(encoding)[0] == pieces[i]);
    }
    assert forall|j: int| #[trigger]
        is_layer(encoding, j) && is_layer(encoding, i) && j != i implies decoded(
        raw,
        encoding,
        cap,
    ) is Err by {
        assert(counts(pieces[i]) && counts(pieces[j]));
        if i < j {
            lemma_filter_two(pieces, counts, i, j);
        } else {
            lemma_filter_two(pieces, counts, j, i);
        }
    }
    if forall|j: int| !(#[trigger] is_layer(encoding, j)) {
        assert forall|j: int| 0 <= j < pieces.len() implies !counts(#[trigger] pieces[j]) by {
            assert(!is_layer(encoding, j));
        }
        lemma_filter_nothing(pieces, counts);
        assert(only_layer(encoding).len() == 0);
    }
}

/// A body that was read is taken whole up to the cap and refused past it.
pub proof fn law_the_cap_is_exact(read: Result<Seq<u8>, Seq<char>>, cap: u64)
    ensures
        within_cap(read, cap) is Ok <==> read is Ok && read->Ok_0.len() <= cap,
        within_cap(read, cap) is Ok ==> within_cap(read, cap) == read,
{
}

} // verus!
