//! Names, URL encoding and the hub file tree: slugs, percent encoding and
//! decoding, query parameters, route segments, hub paths and the file-access
//! white lists.
use vstd::prelude::*;
use crate::model::FilmProject;
use crate::text::{
    after_last, after_last_index, before_first, blank, chars_of, contains, lstrip, push_char,
    push_str, rstrip, split_char, split_once, split_once_strings, split_strings, str_eq, strip,
    strs, trim, trimmed, CharSet,
};
use crate::model::present;

verus! {

broadcast use vstd::utf8::group_utf8_lib;

// ---------------------------------------------------------------------------
// Alphanumeric characters
// ---------------------------------------------------------------------------

/// ASCII letters and digits.
pub open spec fn ascii_alnum(c: char) -> bool {
    ('0' <= c && c <= '9') || ('A' <= c && c <= 'Z') || ('a' <= c && c <= 'z')
}

/// What `char::is_alphanumeric` answers (Unicode `Alphabetic` or numeric).
pub uninterp spec fn alphanumeric(c: char) -> bool;

/// `char::is_alphanumeric`. The contract names the answer and states the
/// ASCII part of it (letters and digits); the Unicode tables beyond ASCII are
/// left unstated.
#[verifier::external_body]
pub(crate) fn is_alphanumeric(c: char) -> (b: bool)
    ensures
        b == alphanumeric(c),
        (c as u32) < 128 ==> (b <==> ascii_alnum(c)),
{
    c.is_alphanumeric()
}

// ---------------------------------------------------------------------------
// Slugs
// ---------------------------------------------------------------------------

/// Folding of a name: alphanumerics kept, every run of other characters
/// becomes one `-`; the flag tells whether the fold ends in such a `-`.
pub open spec fn slug_fold(cs: Seq<char>) -> (Seq<char>, bool)
    decreases cs.len(),
{
    if cs.len() == 0 {
        (seq![], false)
    } else {
        let (prev, dash) = slug_fold(cs.drop_last());
        let c = cs.last();
        if alphanumeric(c) {
            (prev.push(c), false)
        } else if !dash {
            (prev.push('-'), true)
        } else {
            (prev, true)
        }
    }
}

/// The first `n` characters (all when shorter).
pub open spec fn take_chars(s: Seq<char>, n: nat) -> Seq<char> {
    if s.len() > n {
        s.take(n as int)
    } else {
        s
    }
}

/// Slug of a name: trimmed, folded, outer `-` removed, cut to at most 64
/// characters, and a `-` the cut left at either end removed again.
pub open spec fn slug(name: Seq<char>) -> Seq<char> {
    strip(take_chars(strip(slug_fold(trim(name)).0, CharSet::One('-')), 64), CharSet::One('-'))
}

/// Name to slug: alphanumerics (CJK included) kept, other runs folded to
/// one `-`, outer `-` removed, at most 64 characters.
pub fn slugify(name: &str) -> (r: String)
    ensures
        r@ == slug(name@),
{
    let v = chars_of(name);
    let (a, b) = crate::text::strip_range(&v, 0, v.len(), &CharSet::Space);
    assert(v@.subrange(0, v@.len() as int) =~= v@);
    let ghost t = v@.subrange(a as int, b as int);
    let mut out: Vec<char> = Vec::new();
    let mut last_dash = false;
    let mut i = a;
    while i < b
        invariant
            a <= i <= b <= v.len(),
            t == v@.subrange(a as int, b as int),
            (out@, last_dash) == slug_fold(v@.subrange(a as int, i as int)),
        decreases b - i,
    {
        let c = v[i];
        assert(v@.subrange(a as int, i + 1).drop_last() =~= v@.subrange(a as int, i as int));
        if is_alphanumeric(c) {
            out.push(c);
            last_dash = false;
        } else if !last_dash {
            out.push('-');
            last_dash = true;
        }
        i = i + 1;
    }
    let (x, y) = crate::text::strip_range(&out, 0, out.len(), &CharSet::One('-'));
    assert(out@.subrange(0, out@.len() as int) =~= out@);
    let y2 = if y - x > 64 {
        x + 64
    } else {
        y
    };
    assert(take_chars(out@.subrange(x as int, y as int), 64) =~= out@.subrange(x as int, y2 as int));
    let (x2, y3) = crate::text::strip_range(&out, x, y2, &CharSet::One('-'));
    crate::text::string_of_range(&out, x2, y3)
}

/// A view, track or cache name: starts with an alphanumeric, holds only
/// alphanumerics, `-` and `_`, at most 64 characters.
pub open spec fn slug_like(s: Seq<char>) -> bool {
    &&& s.len() > 0
    &&& alphanumeric(s[0])
    &&& forall|i: int| 0 <= i < s.len() ==> alphanumeric(#[trigger] s[i]) || s[i] == '-' || s[i] == '_'
    &&& s.len() <= 64
}

/// Whether a name is slug-like (see [`slug_like`]).
pub fn is_slug_like(s: &str) -> (b: bool)
    ensures
        b == slug_like(s@),
{
    let v = chars_of(s);
    if v.len() == 0 || !is_alphanumeric(v[0]) {
        return false;
    }
    let mut i: usize = 0;
    while i < v.len()
        invariant
            v@ == s@,
            v.len() > 0,
            alphanumeric(v@[0]),
            i <= v.len(),
            forall|k: int| 0 <= k < i ==> alphanumeric(#[trigger] v@[k]) || v@[k] == '-' || v@[k] == '_',
        decreases v.len() - i,
    {
        let c = v[i];
        if !(is_alphanumeric(c) || c == '-' || c == '_') {
            return false;
        }
        i = i + 1;
    }
    v.len() <= 64
}

// ---------------------------------------------------------------------------
// Percent encoding
// ---------------------------------------------------------------------------

/// Bytes kept as they are by the path encoder.
pub open spec fn unreserved(b: u8) -> bool {
    (0x41 <= b && b <= 0x5A) || (0x61 <= b && b <= 0x7A) || (0x30 <= b && b <= 0x39) || b == 0x2F
        || b == 0x2E || b == 0x5F || b == 0x2D || b == 0x7E
}

/// Upper-case hex digit of `d` (`0 <= d < 16`).
pub open spec fn hex_upper(d: int) -> char {
    if d < 10 {
        (48 + d) as char
    } else {
        (55 + d) as char
    }
}

/// Percent encoding of a byte string: unreserved bytes kept, the others as `%XX`.
pub open spec fn pct_encode(b: Seq<u8>) -> Seq<char>
    decreases b.len(),
{
    if b.len() == 0 {
        seq![]
    } else {
        let x = b[0];
        (if unreserved(x) {
            seq![x as char]
        } else {
            seq!['%', hex_upper((x / 16) as int), hex_upper((x % 16) as int)]
        }) + pct_encode(b.drop_first())
    }
}

fn hex_digit(d: u8) -> (c: char)
    requires
        d < 16,
    ensures
        c == hex_upper(d as int),
{
    if d < 10 {
        (48u8 + d) as char
    } else {
        (55u8 + d) as char
    }
}

/// Percent encoding of a path's UTF-8 bytes (unreserved characters and `/` kept).
pub fn percent_encode_path(path: &str) -> (r: String)
    ensures
        r@ == pct_encode(vstd::utf8::encode_utf8(path@)),
{
    let bytes = path.as_bytes();
    let ghost bs = bytes@;
    let mut out = String::new();
    let mut i: usize = 0;
    assert(bs.skip(0) =~= bs);
    while i < bytes.len()
        invariant
            bs == bytes@,
            i <= bytes@.len(),
            out@ + pct_encode(bs.skip(i as int)) == pct_encode(bs),
        decreases bytes.len() - i,
    {
        let x = bytes[i];
        assert(bs.skip(i as int).drop_first() =~= bs.skip(i + 1));
        let ghost before = out@;
        if (0x41 <= x && x <= 0x5A) || (0x61 <= x && x <= 0x7A) || (0x30 <= x && x <= 0x39) || x
            == 0x2F || x == 0x2E || x == 0x5F || x == 0x2D || x == 0x7E {
            push_char(&mut out, x as char);
        } else {
            push_char(&mut out, '%');
            push_char(&mut out, hex_digit(x / 16));
            push_char(&mut out, hex_digit(x % 16));
        }
        assert(out@ + pct_encode(bs.skip(i + 1)) =~= before + pct_encode(bs.skip(i as int)));
        i = i + 1;
    }
    assert(bs.skip(i as int) =~= Seq::<u8>::empty());
    out
}

/// URL of an artifact on the file download endpoint.
pub open spec fn download_url(abs: Seq<char>) -> Seq<char> {
    "/api/v1/files/download?path="@ + pct_encode(vstd::utf8::encode_utf8(abs))
}

/// Artifact absolute path to its download URL (`/api/v1/files/download?path=`).
pub fn files_download_url(abs_path: &str) -> (r: String)
    ensures
        r@ == download_url(abs_path@),
{
    let mut r = String::new();
    r.append("/api/v1/files/download?path=");
    let e = percent_encode_path(abs_path);
    r.append(e.as_str());
    r
}

/// Value of an ASCII hex digit.
pub open spec fn hex_val(b: u8) -> Option<u8> {
    if 0x30 <= b && b <= 0x39 {
        Some((b - 0x30) as u8)
    } else if 0x61 <= b && b <= 0x66 {
        Some((b - 0x61 + 10) as u8)
    } else if 0x41 <= b && b <= 0x46 {
        Some((b - 0x41 + 10) as u8)
    } else {
        None
    }
}

/// `%XX` sequences decoded to their byte; anything else kept.
pub open spec fn pct_decode_bytes(b: Seq<u8>) -> Seq<u8>
    decreases b.len(),
{
    if b.len() == 0 {
        seq![]
    } else if b.len() >= 3 && b[0] == 0x25 && hex_val(b[1]) is Some && hex_val(b[2]) is Some {
        seq![(hex_val(b[1]).unwrap() * 16 + hex_val(b[2]).unwrap()) as u8] + pct_decode_bytes(
            b.skip(3),
        )
    } else {
        seq![b[0]] + pct_decode_bytes(b.drop_first())
    }
}

/// What `String::from_utf8_lossy` makes of a byte string.
pub uninterp spec fn utf8_lossy(b: Seq<u8>) -> Seq<char>;

/// `String::from_utf8_lossy(..).into_owned()`: the text of a byte string,
/// invalid sequences replaced by U+FFFD. The contract names the result and
/// states that valid UTF-8 decodes exactly; the replacement rule for invalid
/// input is left unstated.
#[verifier::external_body]
pub(crate) fn from_utf8_lossy(bytes: &[u8]) -> (r: String)
    ensures
        r@ == utf8_lossy(bytes@),
        vstd::utf8::valid_utf8(bytes@) ==> r@ == vstd::utf8::decode_utf8(bytes@),
{
    String::from_utf8_lossy(bytes).into_owned()
}

fn hex_val_exec(b: u8) -> (r: Option<u8>)
    ensures
        r == hex_val(b),
{
    if 0x30 <= b && b <= 0x39 {
        Some(b - 0x30)
    } else if 0x61 <= b && b <= 0x66 {
        Some(b - 0x61 + 10)
    } else if 0x41 <= b && b <= 0x46 {
        Some(b - 0x41 + 10)
    } else {
        None
    }
}

/// Percent decoding of a URL segment: `%XX` becomes its byte, malformed
/// sequences are kept, `+` is not a space; the bytes are read as UTF-8.
pub open spec fn pct_decode(s: Seq<char>) -> Seq<char> {
    utf8_lossy(pct_decode_bytes(vstd::utf8::encode_utf8(s)))
}

/// Percent decoding of a URL path segment (see [`pct_decode`]).
pub fn percent_decode(s: &str) -> (r: String)
    ensures
        r@ == pct_decode(s@),
        vstd::utf8::valid_utf8(pct_decode_bytes(vstd::utf8::encode_utf8(s@))) ==> r@
            == vstd::utf8::decode_utf8(pct_decode_bytes(vstd::utf8::encode_utf8(s@))),
{
    let bytes = s.as_bytes();
    let ghost bs = bytes@;
    let mut out: Vec<u8> = Vec::new();
    let mut i: usize = 0;
    assert(bs.skip(0) =~= bs);
    while i < bytes.len()
        invariant
            bs == bytes@,
            i <= bytes@.len(),
            out@ + pct_decode_bytes(bs.skip(i as int)) == pct_decode_bytes(bs),
        decreases bytes.len() - i,
    {
        let ghost rest = bs.skip(i as int);
        let ghost before = out@;
        if bytes[i] == 0x25 && bytes.len() - i > 2 {
            match (hex_val_exec(bytes[i + 1]), hex_val_exec(bytes[i + 2])) {
                (Some(h), Some(l)) => {
                    out.push(h * 16 + l);
                    assert(rest.skip(3) =~= bs.skip(i + 3));
                    assert(out@ + pct_decode_bytes(bs.skip(i + 3)) =~= before + pct_decode_bytes(rest));
                    i = i + 3;
                    continue;
                },
                _ => {},
            }
        }
        out.push(bytes[i]);
        assert(rest.drop_first() =~= bs.skip(i + 1));
        assert(out@ + pct_decode_bytes(bs.skip(i + 1)) =~= before + pct_decode_bytes(rest));
        i = i + 1;
    }
    assert(bs.skip(i as int) =~= Seq::<u8>::empty());
    assert(out@ =~= pct_decode_bytes(bs));
    from_utf8_lossy(out.as_slice())
}


/// Byte form of the percent encoding.
pub open spec fn pct_encode_bytes(b: Seq<u8>) -> Seq<u8>
    decreases b.len(),
{
    if b.len() == 0 {
        seq![]
    } else {
        let x = b[0];
        (if unreserved(x) {
            seq![x]
        } else {
            seq![0x25u8, hex_upper((x / 16) as int) as u8, hex_upper((x % 16) as int) as u8]
        }) + pct_encode_bytes(b.drop_first())
    }
}

proof fn lemma_pct_encode_ascii(b: Seq<u8>)
    ensures
        vstd::utf8::is_ascii_chars(pct_encode(b)),
        pct_encode(b).len() == pct_encode_bytes(b).len(),
        forall|i: int| 0 <= i < pct_encode(b).len() ==> (#[trigger] pct_encode(b)[i]) as u8 == pct_encode_bytes(b)[i],
    decreases b.len(),
{
    if b.len() > 0 {
        lemma_pct_encode_ascii(b.drop_first());
        let x = b[0];
        let rest = pct_encode(b.drop_first());
        let rest_b = pct_encode_bytes(b.drop_first());
        if unreserved(x) {
            let head = seq![x as char];
            assert(pct_encode(b) == head + rest);
            assert forall|i: int| 0 <= i < pct_encode(b).len() implies (#[trigger] pct_encode(b)[i]) as u8 == pct_encode_bytes(b)[i] by {
                if i > 0 {
                    assert(pct_encode(b)[i] == rest[i - 1]);
                    assert(pct_encode_bytes(b)[i] == rest_b[i - 1]);
                }
            }
        } else {
            let head = seq!['%', hex_upper((x / 16) as int), hex_upper((x % 16) as int)];
            assert(pct_encode(b) == head + rest);
            assert forall|i: int| 0 <= i < pct_encode(b).len() implies (#[trigger] pct_encode(b)[i]) as u8 == pct_encode_bytes(b)[i] by {
                if i > 2 {
                    assert(pct_encode(b)[i] == rest[i - 3]);
                    assert(pct_encode_bytes(b)[i] == rest_b[i - 3]);
                }
            }
        }
    }
}

proof fn lemma_pct_decode_encode_bytes(b: Seq<u8>)
    ensures
        pct_decode_bytes(pct_encode_bytes(b)) == b,
    decreases b.len(),
{
    if b.len() == 0 {
    } else {
        lemma_pct_decode_encode_bytes(b.drop_first());
        let x = b[0];
        let rest = pct_encode_bytes(b.drop_first());
        if unreserved(x) {
            let e = seq![x] + rest;
            assert(e.drop_first() =~= rest);
            assert(pct_decode_bytes(e) =~= seq![x] + pct_decode_bytes(rest));
        } else {
            let h = hex_upper((x / 16) as int) as u8;
            let l = hex_upper((x % 16) as int) as u8;
            let e = seq![0x25u8, h, l] + rest;
            assert(hex_val(h) == Some((x / 16) as u8));
            assert(hex_val(l) == Some((x % 16) as u8));
            assert(e.skip(3) =~= rest);
            assert(pct_decode_bytes(e) =~= seq![x] + pct_decode_bytes(rest));
        }
        assert(seq![x] + b.drop_first() =~= b);
    }
}

/// Decoding undoes the path encoding: the bytes that `percent_decode`
/// recovers from `percent_encode_path(p)` are valid UTF-8 and decode to `p`,
/// so `percent_decode(percent_encode_path(p)) == p` for every text `p`.
pub proof fn law_percent_roundtrip(p: Seq<char>)
    ensures
        vstd::utf8::valid_utf8(
            pct_decode_bytes(vstd::utf8::encode_utf8(pct_encode(vstd::utf8::encode_utf8(p)))),
        ),
        vstd::utf8::decode_utf8(
            pct_decode_bytes(vstd::utf8::encode_utf8(pct_encode(vstd::utf8::encode_utf8(p)))),
        ) == p,
{
    let b = vstd::utf8::encode_utf8(p);
    let e = pct_encode(b);
    lemma_pct_encode_ascii(b);
    vstd::utf8::is_ascii_chars_encode_utf8(e);
    assert(vstd::utf8::encode_utf8(e) =~= pct_encode_bytes(b));
    lemma_pct_decode_encode_bytes(b);
    vstd::utf8::encode_utf8_valid_utf8(p);
    vstd::utf8::encode_utf8_decode_utf8(p);
}


proof fn lemma_pct_decode_plain(b: Seq<u8>)
    requires
        forall|i: int| 0 <= i < b.len() ==> b[i] != 0x25u8,
    ensures
        pct_decode_bytes(b) == b,
    decreases b.len(),
{
    if b.len() > 0 {
        assert forall|i: int| 0 <= i < b.drop_first().len() implies b.drop_first()[i] != 0x25u8 by {
            assert(b.drop_first()[i] == b[i + 1]);
        }
        lemma_pct_decode_plain(b.drop_first());
        assert(seq![b[0]] + b.drop_first() =~= b);
    }
}

proof fn lemma_scalar_bytes_not_percent(u: u32)
    requires
        vstd::utf8::is_scalar(u),
        u != 0x25u32,
    ensures
        forall|i: int| 0 <= i < vstd::utf8::encode_scalar(u).len()
            ==> vstd::utf8::encode_scalar(u)[i] != 0x25u8,
{
    let e = vstd::utf8::encode_scalar(u);
    if vstd::utf8::has_width_1_encoding(u) {
        assert((u & 0x7F) as u8 != 0x25u8) by (bit_vector)
            requires
                u <= 0x7F,
                u != 0x25u32,
        ;
    } else {
        assert((0x80u8 | (u & 0x3F) as u8) != 0x25u8) by (bit_vector);
        assert((0x80u8 | ((u >> 6) & 0x3F) as u8) != 0x25u8) by (bit_vector);
        assert((0x80u8 | ((u >> 12) & 0x3F) as u8) != 0x25u8) by (bit_vector);
        assert((0xC0u8 | ((u >> 6) & 0x1F) as u8) != 0x25u8) by (bit_vector);
        assert((0xE0u8 | ((u >> 12) & 0x0F) as u8) != 0x25u8) by (bit_vector);
        assert((0xF0u8 | ((u >> 18) & 0x7) as u8) != 0x25u8) by (bit_vector);
    }
}

proof fn lemma_encode_no_percent(s: Seq<char>)
    requires
        !s.contains('%'),
    ensures
        forall|i: int| 0 <= i < vstd::utf8::encode_utf8(s).len()
            ==> vstd::utf8::encode_utf8(s)[i] != 0x25u8,
    decreases s.len(),
{
    if s.len() > 0 {
        let rest = s.drop_first();
        assert(!rest.contains('%')) by {
            if rest.contains('%') {
                let k = choose|k: int| 0 <= k < rest.len() && rest[k] == '%';
                assert(s[k + 1] == '%');
            }
        }
        lemma_encode_no_percent(rest);
        vstd::utf8::char_is_scalar(s[0]);
        assert(s[0] != '%');
        assert((s[0] as u32) != 0x25u32) by {
            if (s[0] as u32) == 0x25u32 {
                assert(('%' as u32) == 0x25u32);
                vstd::utf8::char_u32_cast(s[0], 0x25u32);
                vstd::utf8::char_u32_cast('%', 0x25u32);
            }
        }
        lemma_scalar_bytes_not_percent(s[0] as u32);
        let h = vstd::utf8::encode_scalar(s[0] as u32);
        let t = vstd::utf8::encode_utf8(rest);
        assert(vstd::utf8::encode_utf8(s) == h + t);
        assert forall|i: int| 0 <= i < (h + t).len() implies (h + t)[i] != 0x25u8 by {
            if i >= h.len() {
                assert((h + t)[i] == t[i - h.len()]);
            }
        }
    }
}

/// A segment without `%` decodes to itself: `percent_decode(s) == s`
/// whenever `s` holds no `%` (`+` in particular stays as it is).
pub proof fn law_plain_segment_decodes_to_itself(s: Seq<char>)
    requires
        !s.contains('%'),
    ensures
        vstd::utf8::valid_utf8(pct_decode_bytes(vstd::utf8::encode_utf8(s))),
        vstd::utf8::decode_utf8(pct_decode_bytes(vstd::utf8::encode_utf8(s))) == s,
{
    lemma_encode_no_percent(s);
    lemma_pct_decode_plain(vstd::utf8::encode_utf8(s));
    vstd::utf8::encode_utf8_valid_utf8(s);
    vstd::utf8::encode_utf8_decode_utf8(s);
}

// ---------------------------------------------------------------------------
// Query strings and route segments
// ---------------------------------------------------------------------------

/// The value of the first `key=value` pair whose decoded key is `key`; a
/// pair without `=` before it ends the search with no value.
pub open spec fn query_lookup(pairs: Seq<Seq<char>>, key: Seq<char>) -> Option<Seq<char>>
    decreases pairs.len(),
{
    if pairs.len() == 0 {
        None
    } else {
        match split_once(pairs[0], '=') {
            None => None,
            Some((k, v)) => if pct_decode(k) == key {
                Some(pct_decode(v))
            } else {
                query_lookup(pairs.drop_first(), key)
            },
        }
    }
}

/// The decoded value of query parameter `key` of a request path.
pub open spec fn query_value(path: Seq<char>, key: Seq<char>) -> Option<Seq<char>> {
    match split_once(path, '?') {
        None => None,
        Some((_, q)) => query_lookup(split_char(q, '&'), key),
    }
}

/// Query parameter of a request path (`?a=b&c=d`), percent-decoded.
pub fn query_param(path: &str, key: &str) -> (r: Option<String>)
    ensures
        match (r, query_value(path@, key@)) {
            (Some(v), Some(x)) => v@ == x,
            (None, None) => true,
            _ => false,
        },
{
    let q = match split_once_strings(path, '?') {
        Some((_, q)) => q,
        None => {
            return None;
        },
    };
    let pairs = split_strings(q.as_str(), '&');
    let mut i: usize = 0;
    assert(strs(pairs@).skip(0) =~= strs(pairs@));
    while i < pairs.len()
        invariant
            i <= pairs@.len(),
            query_value(path@, key@) == query_lookup(strs(pairs@).skip(i as int), key@),
        decreases pairs.len() - i,
    {
        assert(strs(pairs@).skip(i as int)[0] == pairs@[i as int]@);
        assert(strs(pairs@).skip(i as int).drop_first() =~= strs(pairs@).skip(i + 1));
        match split_once_strings(pairs[i].as_str(), '=') {
            None => {
                return None;
            },
            Some((k, v)) => {
                let dk = percent_decode(k.as_str());
                if str_eq(dk.as_str(), key) {
                    return Some(percent_decode(v.as_str()));
                }
            },
        }
        i = i + 1;
    }
    None
}

/// The non-empty `/` segments of a path, query string ignored.
pub open spec fn segments(path: Seq<char>) -> Seq<Seq<char>> {
    split_char(before_first(path, '?'), '/').filter(|x: Seq<char>| x.len() > 0)
}

/// Route segments of a request path (query string dropped, empty segments dropped).
pub fn path_segments(path: &str) -> (r: Vec<String>)
    ensures
        strs(r@) == segments(path@),
{
    let v = chars_of(path);
    assert(v@.subrange(0, v@.len() as int) =~= v@);
    let end = match crate::text::find_char_in(&v, 0, v.len(), '?') {
        Some(k) => k,
        None => v.len(),
    };
    let ghost pure = before_first(path@, '?');
    assert(pure =~= v@.subrange(0, end as int));
    let pure_s = crate::text::string_of_range(&v, 0, end);
    let parts = split_strings(pure_s.as_str(), '/');
    let mut out: Vec<String> = Vec::new();
    let mut i: usize = 0;
    let ghost all = strs(parts@);
    while i < parts.len()
        invariant
            i <= parts@.len(),
            all == strs(parts@),
            all == split_char(pure, '/'),
            strs(out@) == all.take(i as int).filter(|x: Seq<char>| x.len() > 0),
        decreases parts.len() - i,
    {
        let ghost before = strs(out@);
        assert(all.take(i + 1).drop_last() =~= all.take(i as int));
        reveal_with_fuel(Seq::filter, 1);
        let c = chars_of(parts[i].as_str());
        if c.len() > 0 {
            push_str(&mut out, parts[i].as_str());
        }
        assert(strs(out@) =~= all.take(i + 1).filter(|x: Seq<char>| x.len() > 0));
        i = i + 1;
    }
    assert(all.take(parts@.len() as int) =~= all);
    out
}

// ---------------------------------------------------------------------------
// Project paths
// ---------------------------------------------------------------------------

/// An export directory that is set: trimmed, trailing `/` removed.
pub open spec fn export_root(ed: Seq<char>) -> Seq<char> {
    rstrip(trim(ed), CharSet::One('/'))
}

/// `<dir>/hub` (trailing `/` of the directory removed).
pub open spec fn hub_root_of(dir: Seq<char>) -> Seq<char> {
    rstrip(dir, CharSet::One('/')) + "/hub"@
}

/// Where the final video goes: `<export_dir>/final.mp4` when an export
/// directory is set, `<dir>/final.mp4` otherwise.
pub open spec fn final_path(p: FilmProject) -> Seq<char> {
    if present(p.export_dir) {
        export_root(p.export_dir.unwrap()@) + "/final.mp4"@
    } else {
        p.dir@ + "/final.mp4"@
    }
}

/// Root of the release files: the export directory when set, else `<hub>/dist`.
pub open spec fn dist_root_of(p: FilmProject) -> Seq<char> {
    if present(p.export_dir) {
        export_root(p.export_dir.unwrap()@)
    } else {
        hub_root_of(p.dir@) + "/dist"@
    }
}

fn export_root_string(ed: &String) -> (r: String)
    ensures
        r@ == export_root(ed@),
{
    let v = chars_of(ed.as_str());
    let (a, b) = crate::text::strip_range(&v, 0, v.len(), &CharSet::Space);
    assert(v@.subrange(0, v@.len() as int) =~= v@);
    let b2 = crate::text::rstrip_index(&v, a, b, &CharSet::One('/'));
    crate::text::string_of_range(&v, a, b2)
}

/// The hub tree root of a project (`<dir>/hub`).
pub fn hub_root(project: &FilmProject) -> (r: String)
    ensures
        r@ == hub_root_of(project.dir@),
{
    let v = chars_of(project.dir.as_str());
    let b = crate::text::rstrip_index(&v, 0, v.len(), &CharSet::One('/'));
    assert(v@.subrange(0, v@.len() as int) =~= v@);
    let mut r = crate::text::string_of_range(&v, 0, b);
    r.append("/hub");
    r
}

/// Final video location of a project (export directory or project directory).
pub fn final_path_of(project: &FilmProject) -> (r: String)
    ensures
        r@ == final_path(*project),
{
    match &project.export_dir {
        Some(ed) => {
            if !blank(ed.as_str()) {
                let mut r = export_root_string(ed);
                r.append("/final.mp4");
                return r;
            }
        },
        None => {},
    }
    let mut r = String::from_str(project.dir.as_str());
    r.append("/final.mp4");
    r
}

/// Release root of a project: the export directory when set, else `<hub>/dist`.
pub fn dist_root(project: &FilmProject) -> (r: String)
    ensures
        r@ == dist_root_of(*project),
{
    match &project.export_dir {
        Some(ed) => {
            if !blank(ed.as_str()) {
                return export_root_string(ed);
            }
        },
        None => {},
    }
    let mut r = hub_root(project);
    r.append("/dist");
    r
}

// ---------------------------------------------------------------------------
// Hub-relative paths
// ---------------------------------------------------------------------------

/// A path segment that could leave the tree or is malformed: empty, `.`,
/// `..`, or holding a backslash.
pub open spec fn bad_segment(c: Seq<char>) -> bool {
    c.len() == 0 || c == seq!['.'] || c == seq!['.', '.'] || c.contains('\\')
}

/// `PathBuf::push` of a relative component onto a path.
pub open spec fn path_push(base: Seq<char>, comp: Seq<char>) -> Seq<char> {
    if base.len() == 0 || base.last() == '/' {
        base + comp
    } else {
        base + seq!['/'] + comp
    }
}

/// A path with the components pushed in order.
pub open spec fn path_join(base: Seq<char>, comps: Seq<Seq<char>>) -> Seq<char>
    decreases comps.len(),
{
    if comps.len() == 0 {
        base
    } else {
        path_push(path_join(base, comps.drop_last()), comps.last())
    }
}

/// The first bad segment, if any.
pub open spec fn first_bad(segs: Seq<Seq<char>>) -> Option<Seq<char>>
    decreases segs.len(),
{
    if segs.len() == 0 {
        None
    } else if bad_segment(segs[0]) {
        Some(segs[0])
    } else {
        first_bad(segs.drop_first())
    }
}

/// The hub-relative path after trimming and removing leading `/`.
pub open spec fn hub_rel(rel: Seq<char>) -> Seq<char> {
    lstrip(trim(rel), CharSet::One('/'))
}

/// Resolution of a hub-relative path under the hub root.
pub open spec fn hub_path(root: Seq<char>, rel: Seq<char>) -> Result<Seq<char>, Seq<char>> {
    let r = hub_rel(rel);
    if r.len() == 0 {
        Err("路径不可为空"@)
    } else {
        let segs = split_char(r, '/');
        match first_bad(segs) {
            Some(c) => Err("非法路径段「"@ + c + "」（禁止穿越）"@),
            None => Ok(path_join(root, segs)),
        }
    }
}

proof fn lemma_first_bad_none(segs: Seq<Seq<char>>)
    ensures
        first_bad(segs) is None <==> forall|i: int| 0 <= i < segs.len() ==> !bad_segment(#[trigger] segs[i]),
    decreases segs.len(),
{
    if segs.len() > 0 {
        lemma_first_bad_none(segs.drop_first());
        if !bad_segment(segs[0]) {
            assert forall|i: int| 0 <= i < segs.len() && (forall|j: int| 0 <= j < segs.drop_first().len() ==> !bad_segment(#[trigger] segs.drop_first()[j])) implies !bad_segment(#[trigger] segs[i]) by {
                if i > 0 {
                    assert(segs[i] == segs.drop_first()[i - 1]);
                }
            }
            assert((forall|i: int| 0 <= i < segs.len() ==> !bad_segment(#[trigger] segs[i])) ==> (forall|j: int| 0 <= j < segs.drop_first().len() ==> !bad_segment(#[trigger] segs.drop_first()[j]))) by {
                if forall|i: int| 0 <= i < segs.len() ==> !bad_segment(#[trigger] segs[i]) {
                    assert forall|j: int| 0 <= j < segs.drop_first().len() implies !bad_segment(#[trigger] segs.drop_first()[j]) by {
                        assert(segs.drop_first()[j] == segs[j + 1]);
                    }
                }
            }
        }
    }
}

fn is_bad_segment(c: &Vec<char>) -> (b: bool)
    ensures
        b == bad_segment(c@),
{
    if c.len() == 0 {
        return true;
    }
    if c.len() == 1 && c[0] == '.' {
        assert(c@ =~= seq!['.']);
        return true;
    }
    if c.len() == 2 && c[0] == '.' && c[1] == '.' {
        assert(c@ =~= seq!['.', '.']);
        return true;
    }
    assert(c@ != seq!['.']) by {
        if c@.len() == 1 {
            assert(c@[0] == seq!['.'][0] || c@ != seq!['.']);
        }
    }
    assert(c@ != seq!['.', '.']) by {
        if c@.len() == 2 {
            assert(c@[0] == seq!['.', '.'][0] && c@[1] == seq!['.', '.'][1] || c@ != seq!['.', '.']);
        }
    }
    let mut i: usize = 0;
    while i < c.len()
        invariant
            i <= c.len(),
            forall|k: int| 0 <= k < i ==> c@[k] != '\\',
        decreases c.len() - i,
    {
        if c[i] == '\\' {
            assert(c@.contains('\\'));
            return true;
        }
        i = i + 1;
    }
    false
}

/// A hub-relative path resolved under the hub root; empty paths and any
/// empty, `.`, `..` or backslash segment are refused (no escape from the tree).
pub fn hub_abs(root: &str, rel: &str) -> (r: Result<String, String>)
    ensures
        match (r, hub_path(root@, rel@)) {
            (Ok(p), Ok(x)) => p@ == x,
            (Err(m), Err(x)) => m@ == x,
            _ => false,
        },
{
    let v = chars_of(rel);
    let (a, b) = crate::text::strip_range(&v, 0, v.len(), &CharSet::Space);
    assert(v@.subrange(0, v@.len() as int) =~= v@);
    let a2 = crate::text::lstrip_index(&v, a, b, &CharSet::One('/'));
    if a2 == b {
        return Err(String::from_str("路径不可为空"));
    }
    let rs = crate::text::string_of_range(&v, a2, b);
    assert(hub_rel(rel@) == rs@);
    let segs = split_strings(rs.as_str(), '/');
    let mut out = String::from_str(root);
    let mut i: usize = 0;
    let ghost all = strs(segs@);
    assert(all.skip(0) =~= all);
    assert(all.take(0) =~= Seq::<Seq<char>>::empty());
    while i < segs.len()
        invariant
            i <= segs@.len(),
            all == strs(segs@),
            hub_rel(rel@).len() > 0,
            all == split_char(hub_rel(rel@), '/'),
            first_bad(all) == first_bad(all.skip(i as int)),
            out@ == path_join(root@, all.take(i as int)),
        decreases segs.len() - i,
    {
        let c = chars_of(segs[i].as_str());
        assert(all.skip(i as int)[0] == c@);
        assert(all.skip(i as int).drop_first() =~= all.skip(i + 1));
        if is_bad_segment(&c) {
            assert(first_bad(all) == Some(c@));
            let mut m = String::new();
            m.append("非法路径段「");
            m.append(segs[i].as_str());
            m.append("」（禁止穿越）");
            return Err(m);
        }
        let o = chars_of(out.as_str());
        if !(o.len() == 0 || o[o.len() - 1] == '/') {
            push_char(&mut out, '/');
        }
        out.append(segs[i].as_str());
        assert(all.take(i + 1).drop_last() =~= all.take(i as int));
        assert(out@ =~= path_join(root@, all.take(i + 1)));
        i = i + 1;
    }
    assert(all.take(segs@.len() as int) =~= all);
    Ok(out)
}

/// A resolved hub path never holds a `..`, `.` or empty segment: every
/// segment of the relative part that was joined under the root is clean.
pub proof fn law_hub_path_confined(root: Seq<char>, rel: Seq<char>)
    ensures
        hub_path(root, rel) is Ok ==> {
            let segs = split_char(hub_rel(rel), '/');
            &&& hub_path(root, rel) == Ok::<Seq<char>, Seq<char>>(path_join(root, segs))
            &&& forall|i: int| 0 <= i < segs.len() ==> !bad_segment(#[trigger] segs[i])
        },
{
    lemma_first_bad_none(split_char(hub_rel(rel), '/'));
}

// ---------------------------------------------------------------------------
// File-access white lists
// ---------------------------------------------------------------------------

/// The extension of a file name (after the last `.`, the whole name when none).
pub open spec fn ext_of(name: Seq<char>) -> Seq<char> {
    crate::media::ascii_lower(after_last(name, '.'))
}

/// Text files of the hub (md / txt / json / srt).
pub open spec fn text_ext(name: Seq<char>) -> bool {
    let e = ext_of(name);
    e == "md"@ || e == "txt"@ || e == "json"@ || e == "srt"@
}

/// Binary assets of the hub (png / jpg / jpeg / webp / mp3 / mp4).
pub open spec fn binary_ext(name: Seq<char>) -> bool {
    let e = ext_of(name);
    e == "png"@ || e == "jpg"@ || e == "jpeg"@ || e == "webp"@ || e == "mp3"@ || e == "mp4"@
}

fn ext_string(name: &str) -> (r: String)
    ensures
        r@ == ext_of(name@),
{
    let v = chars_of(name);
    let i = after_last_index(&v, 0, v.len(), '.');
    assert(v@.subrange(0, v@.len() as int) =~= v@);
    let e = crate::text::string_of_range(&v, i, v.len());
    crate::media::to_ascii_lower(e.as_str())
}

/// Whether a file name has a text extension.
pub fn is_text_ext(name: &str) -> (b: bool)
    ensures
        b == text_ext(name@),
{
    let e = ext_string(name);
    let s = e.as_str();
    str_eq(s, "md") || str_eq(s, "txt") || str_eq(s, "json") || str_eq(s, "srt")
}

/// Whether a file name has a binary asset extension.
pub fn is_binary_ext(name: &str) -> (b: bool)
    ensures
        b == binary_ext(name@),
{
    let e = ext_string(name);
    let s = e.as_str();
    str_eq(s, "png") || str_eq(s, "jpg") || str_eq(s, "jpeg") || str_eq(s, "webp") || str_eq(
        s,
        "mp3",
    ) || str_eq(s, "mp4")
}

/// The read white list: casting views, BGM tracks, release and cache media
/// are binary (`Ok(false)`); other text files are text (`Ok(true)`).
pub open spec fn get_access(rel: Seq<char>) -> Result<bool, Seq<char>> {
    let name = after_last(rel, '/');
    let segs = split_char(rel, '/');
    if segs.len() >= 5 && segs[0] == "casting"@ && segs[3] == "views"@ && binary_ext(name) {
        Ok(false)
    } else if segs.len() == 4 && segs[0] == "audio"@ && segs[1] == "bgm"@ && name == "track.mp3"@ {
        Ok(false)
    } else if segs[0] == "dist"@ && binary_ext(name) {
        Ok(false)
    } else if segs[0] == "cache"@ && binary_ext(name) {
        Ok(false)
    } else if text_ext(name) {
        Ok(true)
    } else {
        Err("路径不在 files 读白名单内: "@ + rel
            + "（文本=md/txt/json/srt；二进制=casting 视图/BGM 音轨/dist 成品/cache 半成品）"@)
    }
}

/// The write white list: hub text files except the server-kept lists, the
/// cache and release trees and binary media.
pub open spec fn put_access(rel: Seq<char>) -> Result<(), Seq<char>> {
    let name = after_last(rel, '/');
    let segs = split_char(rel, '/');
    if !text_ext(name) {
        Err("files PUT 仅支持文本文件（md/txt/json）: "@ + rel)
    } else if rel == "budget.json"@ {
        Ok(())
    } else if rel == "assets.json"@ || rel == "activity.json"@ {
        Err(rel + " 为服务端真值清单，不可经 files PUT 改写"@)
    } else if segs[0] == "cache"@ || segs[0] == "dist"@ {
        Err("cache/ 与 dist/ 不在 PUT 白名单: "@ + rel)
    } else if segs.len() >= 5 && segs[0] == "casting"@ && segs[3] == "views"@ {
        Err("定妆视图为二进制资产，请走 views/import: "@ + rel)
    } else if segs.len() == 4 && segs[0] == "audio"@ && segs[1] == "bgm"@ && name != "info.md"@ {
        Err("音轨二进制请走 audio/bgm 导入: "@ + rel)
    } else {
        Ok(())
    }
}

proof fn lemma_find_char_none(s: Seq<char>, c: char)
    requires
        !s.contains(c),
    ensures
        crate::text::find(s, seq![c]) is None,
    decreases s.len(),
{
    if s.len() > 0 {
        assert(s[0] != c);
        assert(!seq![c].is_prefix_of(s)) by {
            if seq![c].is_prefix_of(s) {
                assert(s.subrange(0, 1)[0] == seq![c][0]);
            }
        }
        assert(!s.drop_first().contains(c)) by {
            if s.drop_first().contains(c) {
                let j = choose|j: int| 0 <= j < s.drop_first().len() && s.drop_first()[j] == c;
                assert(s[j + 1] == c);
            }
        }
        lemma_find_char_none(s.drop_first(), c);
    } else {
        assert(!seq![c].is_prefix_of(s));
    }
}

proof fn lemma_find_char_at(a: Seq<char>, c: char, b: Seq<char>)
    requires
        !a.contains(c),
    ensures
        crate::text::find(a + seq![c] + b, seq![c]) == Some(a.len() as int),
    decreases a.len(),
{
    let s = a + seq![c] + b;
    if a.len() == 0 {
        assert(s.subrange(0, 1) =~= seq![c]);
        assert(seq![c].is_prefix_of(s));
    } else {
        assert(s[0] == a[0]);
        assert(a[0] != c);
        assert(!seq![c].is_prefix_of(s)) by {
            if seq![c].is_prefix_of(s) {
                assert(s.subrange(0, 1)[0] == seq![c][0]);
            }
        }
        assert(!a.drop_first().contains(c)) by {
            if a.drop_first().contains(c) {
                let j = choose|j: int| 0 <= j < a.drop_first().len() && a.drop_first()[j] == c;
                assert(a[j + 1] == c);
            }
        }
        lemma_find_char_at(a.drop_first(), c, b);
        assert(s.drop_first() =~= a.drop_first() + seq![c] + b);
    }
}

proof fn lemma_split_cons(a: Seq<char>, c: char, b: Seq<char>)
    requires
        !a.contains(c),
    ensures
        split_char(a + seq![c] + b, c) == seq![a] + split_char(b, c),
{
    let s = a + seq![c] + b;
    lemma_find_char_at(a, c, b);
    assert(s.take(a.len() as int) =~= a);
    assert(s.skip(a.len() as int + 1) =~= b);
}

proof fn lemma_split_single(a: Seq<char>, c: char)
    requires
        !a.contains(c),
    ensures
        split_char(a, c) == seq![a],
{
    lemma_find_char_none(a, c);
}

proof fn lemma_rfind_slash(x: Seq<char>, f: Seq<char>)
    requires
        !f.contains('/'),
    ensures
        crate::text::rfind_char(x + seq!['/'] + f, '/') == Some(x.len() as int),
    decreases f.len(),
{
    let s = x + seq!['/'] + f;
    if f.len() > 0 {
        assert(s.last() == f.last());
        assert(!f.drop_last().contains('/')) by {
            if f.drop_last().contains('/') {
                let j = choose|j: int| 0 <= j < f.drop_last().len() && f.drop_last()[j] == '/';
                assert(f[j] == '/');
            }
        }
        lemma_rfind_slash(x, f.drop_last());
        assert(s.drop_last() =~= x + seq!['/'] + f.drop_last());
    }
}

proof fn lemma_after_last(x: Seq<char>, f: Seq<char>)
    requires
        !f.contains('/'),
    ensures
        after_last(x + seq!['/'] + f, '/') == f,
{
    lemma_rfind_slash(x, f);
    assert((x + seq!['/'] + f).skip(x.len() as int + 1) =~= f);
}

/// The read white list serves casting views: a file with a binary extension
/// under `casting/<type>/<name>/views/` is read as binary, whatever the
/// type, name and file name (none holding `/`).
pub proof fn law_casting_views_readable(t: Seq<char>, n: Seq<char>, f: Seq<char>)
    requires
        !t.contains('/'),
        !n.contains('/'),
        !f.contains('/'),
        binary_ext(f),
    ensures
        get_access("casting/"@ + t + "/"@ + n + "/views/"@ + f) == Ok::<bool, Seq<char>>(false),
{
    reveal_strlit("casting/");
    reveal_strlit("/");
    reveal_strlit("/views/");
    reveal_strlit("casting");
    reveal_strlit("views");
    let casting = seq!['c', 'a', 's', 't', 'i', 'n', 'g'];
    let views = seq!['v', 'i', 'e', 'w', 's'];
    let rel = "casting/"@ + t + "/"@ + n + "/views/"@ + f;
    assert(!casting.contains('/'));
    assert(!views.contains('/'));
    lemma_split_single(f, '/');
    lemma_split_cons(views, '/', f);
    lemma_split_cons(n, '/', views + seq!['/'] + f);
    lemma_split_cons(t, '/', n + seq!['/'] + views + seq!['/'] + f);
    lemma_split_cons(casting, '/', t + seq!['/'] + n + seq!['/'] + views + seq!['/'] + f);
    assert(rel =~= casting + seq!['/'] + (t + seq!['/'] + (n + seq!['/'] + (views + seq!['/'] + f))));
    assert(t + seq!['/'] + (n + seq!['/'] + (views + seq!['/'] + f)) =~= t + seq!['/'] + n + seq!['/'] + views + seq!['/'] + f);
    assert(n + seq!['/'] + (views + seq!['/'] + f) =~= n + seq!['/'] + views + seq!['/'] + f);
    let segs = split_char(rel, '/');
    assert(segs =~= seq![casting, t, n, views, f]);
    lemma_after_last(casting + seq!['/'] + t + seq!['/'] + n + seq!['/'] + views, f);
    assert(rel =~= (casting + seq!['/'] + t + seq!['/'] + n + seq!['/'] + views) + seq!['/'] + f);
    assert("casting"@ =~= casting);
    assert("views"@ =~= views);
}

proof fn lemma_split_nonempty(s: Seq<char>, c: char)
    ensures
        split_char(s, c).len() >= 1,
{
}

fn name_of(rel: &str) -> (r: String)
    ensures
        r@ == after_last(rel@, '/'),
{
    let v = chars_of(rel);
    let i = after_last_index(&v, 0, v.len(), '/');
    assert(v@.subrange(0, v@.len() as int) =~= v@);
    crate::text::string_of_range(&v, i, v.len())
}

/// Read access to a hub file: `Ok(true)` text, `Ok(false)` binary, `Err` outside the white list.
pub fn check_get_path(rel: &str) -> (r: Result<bool, String>)
    ensures
        match (r, get_access(rel@)) {
            (Ok(b), Ok(x)) => b == x,
            (Err(m), Err(x)) => m@ == x,
            _ => false,
        },
{
    let name = name_of(rel);
    let segs = split_strings(rel, '/');
    proof {
        lemma_split_nonempty(rel@, '/');
    }
    let n = segs.len();
    let bin = is_binary_ext(name.as_str());
    let s0 = segs[0].as_str();
    if n >= 5 && str_eq(s0, "casting") && str_eq(segs[3].as_str(), "views") && bin {
        return Ok(false);
    }
    if n == 4 && str_eq(s0, "audio") && str_eq(segs[1].as_str(), "bgm") && str_eq(name.as_str(), "track.mp3") {
        return Ok(false);
    }
    if str_eq(s0, "dist") && bin {
        return Ok(false);
    }
    if str_eq(s0, "cache") && bin {
        return Ok(false);
    }
    if is_text_ext(name.as_str()) {
        return Ok(true);
    }
    let mut m = String::new();
    m.append("路径不在 files 读白名单内: ");
    m.append(rel);
    m.append("（文本=md/txt/json/srt；二进制=casting 视图/BGM 音轨/dist 成品/cache 半成品）");
    Err(m)
}

/// Write access to a hub file (`Err` with the reason when refused).
pub fn check_put_path(rel: &str) -> (r: Result<(), String>)
    ensures
        match (r, put_access(rel@)) {
            (Ok(()), Ok(())) => true,
            (Err(m), Err(x)) => m@ == x,
            _ => false,
        },
{
    let name = name_of(rel);
    let segs = split_strings(rel, '/');
    proof {
        lemma_split_nonempty(rel@, '/');
    }
    let n = segs.len();
    if !is_text_ext(name.as_str()) {
        let mut m = String::new();
        m.append("files PUT 仅支持文本文件（md/txt/json）: ");
        m.append(rel);
        return Err(m);
    }
    if str_eq(rel, "budget.json") {
        return Ok(());
    }
    if str_eq(rel, "assets.json") || str_eq(rel, "activity.json") {
        let mut m = String::from_str(rel);
        m.append(" 为服务端真值清单，不可经 files PUT 改写");
        return Err(m);
    }
    let s0 = segs[0].as_str();
    if str_eq(s0, "cache") || str_eq(s0, "dist") {
        let mut m = String::new();
        m.append("cache/ 与 dist/ 不在 PUT 白名单: ");
        m.append(rel);
        return Err(m);
    }
    if n >= 5 && str_eq(s0, "casting") && str_eq(segs[3].as_str(), "views") {
        let mut m = String::new();
        m.append("定妆视图为二进制资产，请走 views/import: ");
        m.append(rel);
        return Err(m);
    }
    if n == 4 && str_eq(s0, "audio") && str_eq(segs[1].as_str(), "bgm") && !str_eq(name.as_str(), "info.md") {
        let mut m = String::new();
        m.append("音轨二进制请走 audio/bgm 导入: ");
        m.append(rel);
        return Err(m);
    }
    Ok(())
}

/// Author of a write: the trimmed field, or `anonymous` when absent or blank.
pub open spec fn author(raw: Option<String>) -> Seq<char> {
    if present(raw) {
        trim(raw.unwrap()@)
    } else {
        "anonymous"@
    }
}

/// Request-body author normalization (absent or blank is `anonymous`).
pub fn author_of(raw: &Option<String>) -> (r: String)
    ensures
        r@ == author(*raw),
{
    match raw {
        Some(s) => {
            if !blank(s.as_str()) {
                return trimmed(s.as_str());
            }
        },
        None => {},
    }
    String::from_str("anonymous")
}

/// The extension `Path::extension` gives for a hub path: the part of the
/// last component after its last `.`, none when it has no `.` but a
/// leading one.
pub open spec fn path_extension(rel: Seq<char>) -> Option<Seq<char>> {
    let name = after_last(rel, '/');
    match crate::text::rfind_char(name, '.') {
        Some(k) => if k > 0 {
            Some(name.skip(k + 1))
        } else {
            None
        },
        None => None,
    }
}

/// The mime type a binary hub file is served with, by its extension
/// (case-insensitive); `application/octet-stream` for any other.
pub open spec fn mime_of(rel: Seq<char>) -> Seq<char> {
    match path_extension(rel) {
        Some(e) => {
            let l = crate::media::ascii_lower(e);
            if l == "png"@ {
                "image/png"@
            } else if l == "jpg"@ || l == "jpeg"@ {
                "image/jpeg"@
            } else if l == "webp"@ {
                "image/webp"@
            } else if l == "mp3"@ {
                "audio/mpeg"@
            } else if l == "mp4"@ {
                "video/mp4"@
            } else {
                "application/octet-stream"@
            }
        },
        None => "application/octet-stream"@,
    }
}

/// The mime type a binary hub file is served with (see [`mime_of`]).
pub fn hub_file_mime(rel: &str) -> (r: &'static str)
    ensures
        r@ == mime_of(rel@),
{
    proof {
        reveal_strlit("png");
        reveal_strlit("jpg");
        reveal_strlit("jpeg");
        reveal_strlit("webp");
        reveal_strlit("mp3");
        reveal_strlit("mp4");
    }
    let v = chars_of(rel);
    let start = after_last_index(&v, 0, v.len(), '/');
    assert(v@.subrange(0, v@.len() as int) =~= v@);
    let name = crate::text::string_of_range(&v, start, v.len());
    let nv = chars_of(name.as_str());
    assert(nv@.take(nv@.len() as int) =~= nv@);
    let k = match crate::text::rfind_char_in(&nv, nv.len(), '.') {
        Some(k) => k,
        None => return "application/octet-stream",
    };
    if k == 0 {
        return "application/octet-stream";
    }
    let e = crate::text::string_of_range(&nv, k + 1, nv.len());
    assert(nv@.subrange(k + 1, nv@.len() as int) =~= nv@.skip(k + 1));
    let l = crate::media::to_ascii_lower(e.as_str());
    let s = l.as_str();
    if str_eq(s, "png") {
        "image/png"
    } else if str_eq(s, "jpg") || str_eq(s, "jpeg") {
        "image/jpeg"
    } else if str_eq(s, "webp") {
        "image/webp"
    } else if str_eq(s, "mp3") {
        "audio/mpeg"
    } else if str_eq(s, "mp4") {
        "video/mp4"
    } else {
        "application/octet-stream"
    }
}

/// The kind a file is listed with in the hub tree: `text`, `binary` or
/// `other`, by its extension.
pub open spec fn kind_of(name: Seq<char>) -> Seq<char> {
    if text_ext(name) {
        "text"@
    } else if binary_ext(name) {
        "binary"@
    } else {
        "other"@
    }
}

/// The kind a file is listed with in the hub tree (see [`kind_of`]).
pub fn tree_file_kind(name: &str) -> (r: &'static str)
    ensures
        r@ == kind_of(name@),
{
    if is_text_ext(name) {
        "text"
    } else if is_binary_ext(name) {
        "binary"
    } else {
        "other"
    }
}

} // verus!
