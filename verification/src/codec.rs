//! Byte codecs the pipeline relies on: standard base64 for uploads and
//! model payloads, SHA-256 for the asset register, and the checks made on
//! uploaded content.
use vstd::prelude::*;
use base64::Engine;
use sha2::Digest;
use crate::text::{chars_of, contains, push_char, trim, trimmed};

verus! {

// ---------------------------------------------------------------------------
// base64
// ---------------------------------------------------------------------------

/// The standard base64 text (padded) of some bytes.
pub uninterp spec fn b64_text(bytes: Seq<u8>) -> Seq<char>;

/// What standard base64 decoding gives for a text: the bytes, or the
/// message of the decoding error.
pub uninterp spec fn b64_decoded(text: Seq<char>) -> Result<Seq<u8>, Seq<char>>;

/// `base64::engine::general_purpose::STANDARD.encode`: the padded
/// standard base64 text of the bytes. It panics when the encoded length
/// overflows `usize`, which the bound on the input rules out.
#[verifier::external_body]
fn b64_encode(bytes: &[u8]) -> (r: String)
    requires
        bytes@.len() <= usize::MAX / 2,
    ensures
        r@ == b64_text(bytes@),
{
    base64::engine::general_purpose::STANDARD.encode(bytes)
}

/// `base64::engine::general_purpose::STANDARD.decode`: the decoded bytes,
/// or the error turned into its message (`Display`).
#[verifier::external_body]
fn b64_decode(text: &str) -> (r: Result<Vec<u8>, String>)
    ensures
        match r {
            Ok(v) => b64_decoded(text@) == Ok::<Seq<u8>, Seq<char>>(v@),
            Err(m) => b64_decoded(text@) == Err::<Seq<u8>, Seq<char>>(m@),
        },
{
    match base64::engine::general_purpose::STANDARD.decode(text) {
        Ok(v) => Ok(v),
        Err(e) => Err(e.to_string()),
    }
}

/// The standard base64 text of some bytes (reference images and views
/// handed to a model).
pub fn to_b64(bytes: &[u8]) -> (r: String)
    requires
        bytes@.len() <= usize::MAX / 2,
    ensures
        r@ == b64_text(bytes@),
{
    b64_encode(bytes)
}

/// The first frame handed to a video model: as a PNG data URL, and as bare
/// base64.
pub fn image_payload(png: &[u8]) -> (r: (String, String))
    requires
        png@.len() <= usize::MAX / 2,
    ensures
        r.0@ == "data:image/png;base64,"@ + b64_text(png@),
        r.1@ == b64_text(png@),
{
    let b = b64_encode(png);
    let mut url = String::new();
    url.append("data:image/png;base64,");
    url.append(b.as_str());
    (url, b)
}

/// `data:`, which marks a data URL.
pub open spec fn data_marker() -> Seq<char> {
    seq!['d', 'a', 't', 'a', ':']
}

/// What an upload field of base64 content gives: its trimmed text must not
/// be empty, must not be a data URL when only bare base64 is accepted, must
/// decode, and must not decode to nothing. The errors are the messages of
/// the 400 answers, naming the field.
pub open spec fn upload_bytes(raw: Seq<char>, field: Seq<char>, bare_only: bool) -> Result<
    Seq<u8>,
    Seq<char>,
> {
    let t = trim(raw);
    if t.len() == 0 {
        Err(field + " 不可为空"@)
    } else if bare_only && contains(t, data_marker()) {
        Err(field + " 须为原始标准 b64（不带 data: 前缀）"@)
    } else {
        match b64_decoded(t) {
            Err(e) => Err(field + " 解码失败: "@ + e),
            Ok(b) => if b.len() == 0 {
                Err(field + " 解码后为空"@)
            } else {
                Ok(b)
            },
        }
    }
}

fn has_data_marker(v: &Vec<char>) -> (b: bool)
    ensures
        b == contains(v@, data_marker()),
{
    let pat: Vec<char> = vec!['d', 'a', 't', 'a', ':'];
    assert(pat@ =~= data_marker());
    match crate::text::find_from(v, 0, &pat) {
        Some(_) => {
            assert(v@.skip(0) =~= v@);
            true
        },
        None => {
            assert(v@.skip(0) =~= v@);
            false
        },
    }
}

/// Decodes an uploaded base64 field (see [`upload_bytes`]).
pub fn decode_upload(raw: &str, field: &str, bare_only: bool) -> (r: Result<Vec<u8>, String>)
    ensures
        match r {
            Ok(v) => upload_bytes(raw@, field@, bare_only) == Ok::<Seq<u8>, Seq<char>>(v@),
            Err(m) => upload_bytes(raw@, field@, bare_only) == Err::<Seq<u8>, Seq<char>>(m@),
        },
{
    let t = trimmed(raw);
    let v = chars_of(t.as_str());
    if v.len() == 0 {
        let mut m = String::from_str(field);
        m.append(" 不可为空");
        return Err(m);
    }
    if bare_only && has_data_marker(&v) {
        let mut m = String::from_str(field);
        m.append(" 须为原始标准 b64（不带 data: 前缀）");
        return Err(m);
    }
    match b64_decode(t.as_str()) {
        Err(e) => {
            let mut m = String::from_str(field);
            m.append(" 解码失败: ");
            m.append(e.as_str());
            Err(m)
        },
        Ok(b) => {
            if b.len() == 0 {
                let mut m = String::from_str(field);
                m.append(" 解码后为空");
                Err(m)
            } else {
                Ok(b)
            }
        },
    }
}

/// Decodes the base64 payload of a model's answer; the error names what was
/// being decoded (`生图`, `视频`, `音乐`, `音频`).
pub fn decode_payload(b64: &str, what: &str) -> (r: Result<Vec<u8>, String>)
    ensures
        match (r, b64_decoded(trim(b64@))) {
            (Ok(v), Ok(w)) => v@ == w,
            (Err(m), Err(e)) => m@ == what@ + " b64 解码失败: "@ + e,
            _ => false,
        },
{
    let t = trimmed(b64);
    match b64_decode(t.as_str()) {
        Ok(v) => Ok(v),
        Err(e) => {
            let mut m = String::from_str(what);
            m.append(" b64 解码失败: ");
            m.append(e.as_str());
            Err(m)
        },
    }
}

// ---------------------------------------------------------------------------
// SHA-256
// ---------------------------------------------------------------------------

/// The SHA-256 digest of some bytes.
pub uninterp spec fn sha256_of(bytes: Seq<u8>) -> Seq<u8>;

/// `sha2::Sha256::digest`: the digest of the bytes, 32 bytes long.
#[verifier::external_body]
fn sha256_digest(bytes: &[u8]) -> (r: Vec<u8>)
    ensures
        r@ == sha256_of(bytes@),
        r@.len() == 32,
{
    sha2::Sha256::digest(bytes).to_vec()
}

/// The lower-case hexadecimal digit of `d` (`0 <= d < 16`).
pub open spec fn hex_digit(d: int) -> char {
    if d < 10 {
        (48 + d) as char
    } else {
        (87 + d) as char
    }
}

/// Two lower-case hexadecimal digits per byte.
pub open spec fn hex_lower(b: Seq<u8>) -> Seq<char>
    decreases b.len(),
{
    if b.len() == 0 {
        seq![]
    } else {
        hex_lower(b.drop_last()) + seq![hex_digit((b.last() / 16) as int), hex_digit((b.last() % 16) as int)]
    }
}

fn hex_char(d: u8) -> (c: char)
    requires
        d < 16,
    ensures
        c == hex_digit(d as int),
{
    if d < 10 {
        (48 + d) as char
    } else {
        (87 + d) as char
    }
}

/// The SHA-256 of some bytes in lower-case hexadecimal (64 characters).
pub fn sha256_hex(bytes: &[u8]) -> (r: String)
    ensures
        r@ == hex_lower(sha256_of(bytes@)),
        r@.len() == 64,
{
    let d = sha256_digest(bytes);
    let mut r = String::new();
    let mut i: usize = 0;
    while i < d.len()
        invariant
            i <= d@.len(),
            d@.len() == 32,
            r@ == hex_lower(d@.take(i as int)),
            r@.len() == 2 * i,
        decreases d.len() - i,
    {
        assert(d@.take(i + 1).drop_last() =~= d@.take(i as int));
        let b = d[i];
        push_char(&mut r, hex_char(b / 16));
        push_char(&mut r, hex_char(b % 16));
        i = i + 1;
    }
    assert(d@.take(32) =~= d@);
    r
}

} // verus!
