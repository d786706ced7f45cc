//! The checks made on uploaded content: portrait, reference and view
//! images, imported story text and imported BGM tracks. Each takes the
//! base64 field as sent and gives the bytes (and what they are) or the
//! reason the upload is refused.
use vstd::prelude::*;
use crate::codec::{decode_upload, upload_bytes};
use crate::media::{ext_for_mime, image_ext_of, mime_ext, sniff_image_ext};

verus! {

/// Largest image upload: 10 MiB.
pub const IMAGE_MAX_BYTES: usize = 10485760;

/// Largest imported BGM track: 20 MiB.
pub const BGM_IMPORT_MAX_BYTES: usize = 20971520;

/// Why an upload is refused.
#[derive(Debug, Clone, PartialEq, Eq)]
pub enum UploadIssue {
    /// Refused with this message.
    Rejected(String),
    /// Over the limit: what was sent (`图片`, `导入原文`, `音频`), the limit
    /// in MiB and the size in bytes. The message shows the size in MiB with
    /// one decimal.
    TooLarge { subject: String, limit_mb: usize, bytes: usize },
}

/// The value of a refusal: a message, or (subject, limit in MiB, bytes).
pub enum IssueModel {
    Rejected(Seq<char>),
    TooLarge(Seq<char>, nat, nat),
}

/// The value of a refusal.
pub open spec fn issue_model(i: UploadIssue) -> IssueModel {
    match i {
        UploadIssue::Rejected(m) => IssueModel::Rejected(m@),
        UploadIssue::TooLarge { subject, limit_mb, bytes } => IssueModel::TooLarge(
            subject@,
            limit_mb as nat,
            bytes as nat,
        ),
    }
}

/// Where an uploaded image goes, which decides the wording of the refusals.
#[derive(Debug, Clone, Copy, PartialEq, Eq, Structural)]
pub enum ImageUse {
    /// A character's portrait (bare base64 only).
    Portrait,
    /// A project reference image (kind taken from the bytes).
    Reference,
    /// A view of a casting object.
    View,
}

/// The message for a mime type outside the white list.
pub open spec fn bad_mime_message(m: Seq<char>) -> Seq<char> {
    "mime 仅支持 png/jpeg/webp（当前 "@ + m + "）"@
}

/// The message when no mime is given and the bytes are no known image.
pub open spec fn unsniffable_message(u: ImageUse) -> Seq<char> {
    match u {
        ImageUse::Portrait => "mime 缺省时按图片魔数嗅探仅支持 png/jpeg/webp（请显式传 mime）"@,
        ImageUse::View => "mime 缺省时按魔数嗅探仅支持 png/jpeg/webp（请显式传 mime）"@,
        ImageUse::Reference => "仅支持 png/jpeg/webp 图片（魔数嗅探失败）"@,
    }
}

/// The message when the bytes are not the image the mime names.
pub open spec fn mismatch_message(u: ImageUse) -> Seq<char> {
    match u {
        ImageUse::Portrait => "图片内容与 mime 不符（魔数校验失败；仅支持 png/jpeg/webp）"@,
        _ => "图片内容与 mime 不符（魔数校验失败）"@,
    }
}

/// The extension an image upload is stored under: the mime's when given
/// (reference images ignore it), else the one its bytes show; the bytes must
/// be that kind of image.
pub open spec fn image_kind(u: ImageUse, bytes: Seq<u8>, mime: Option<Seq<char>>) -> Result<Seq<char>, Seq<char>> {
    let declared = match mime {
        Some(m) => if u != ImageUse::Reference {
            match mime_ext(m) {
                Some(e) => Ok(e),
                None => Err(bad_mime_message(m)),
            }
        } else {
            match image_ext_of(bytes) {
                Some(e) => Ok(e),
                None => Err(unsniffable_message(u)),
            }
        },
        None => match image_ext_of(bytes) {
            Some(e) => Ok(e),
            None => Err(unsniffable_message(u)),
        },
    };
    match declared {
        Ok(e) => if image_ext_of(bytes) == Some(e) {
            Ok(e)
        } else {
            Err(mismatch_message(u))
        },
        Err(m) => Err(m),
    }
}

/// What an image upload gives: the bytes of its base64 field (see
/// [`upload_bytes`]), at most [`IMAGE_MAX_BYTES`] of them, and the
/// extension it is stored under (see [`image_kind`]).
pub open spec fn image_upload(u: ImageUse, raw: Seq<char>, mime: Option<Seq<char>>) -> Result<
    (Seq<u8>, Seq<char>),
    IssueModel,
> {
    match upload_bytes(raw, "image_b64"@, u == ImageUse::Portrait) {
        Err(m) => Err(IssueModel::Rejected(m)),
        Ok(b) => if b.len() > IMAGE_MAX_BYTES {
            Err(IssueModel::TooLarge("图片"@, 10, b.len()))
        } else {
            match image_kind(u, b, mime) {
                Ok(e) => Ok((b, e)),
                Err(m) => Err(IssueModel::Rejected(m)),
            }
        },
    }
}

/// The characters of an optional string slice.
pub open spec fn opt_view(o: Option<&str>) -> Option<Seq<char>> {
    match o {
        Some(s) => Some(s@),
        None => None,
    }
}

fn image_kind_of(u: ImageUse, bytes: &[u8], mime: Option<&str>) -> (r: Result<&'static str, String>)
    ensures
        match r {
            Ok(e) => image_kind(u, bytes@, opt_view(mime)) == Ok::<Seq<char>, Seq<char>>(e@),
            Err(m) => image_kind(u, bytes@, opt_view(mime)) == Err::<Seq<char>, Seq<char>>(m@),
        },
{
    let sniffed = sniff_image_ext(bytes);
    let declared: Result<&'static str, String> = match mime {
        Some(m) => {
            if u != ImageUse::Reference {
                match ext_for_mime(m) {
                    Some(e) => Ok(e),
                    None => {
                        let mut s = String::new();
                        s.append("mime 仅支持 png/jpeg/webp（当前 ");
                        s.append(m);
                        s.append("）");
                        Err(s)
                    },
                }
            } else {
                match sniffed {
                    Some(e) => Ok(e),
                    None => Err(unsniffable(u)),
                }
            }
        },
        None => match sniffed {
            Some(e) => Ok(e),
            None => Err(unsniffable(u)),
        },
    };
    match declared {
        Ok(e) => {
            let same = match sniffed {
                Some(x) => crate::text::str_eq(x, e),
                None => false,
            };
            if same {
                Ok(e)
            } else {
                match u {
                    ImageUse::Portrait => Err(
                        String::from_str("图片内容与 mime 不符（魔数校验失败；仅支持 png/jpeg/webp）"),
                    ),
                    _ => Err(String::from_str("图片内容与 mime 不符（魔数校验失败）")),
                }
            }
        },
        Err(m) => Err(m),
    }
}

fn unsniffable(u: ImageUse) -> (m: String)
    ensures
        m@ == unsniffable_message(u),
{
    match u {
        ImageUse::Portrait => String::from_str("mime 缺省时按图片魔数嗅探仅支持 png/jpeg/webp（请显式传 mime）"),
        ImageUse::View => String::from_str("mime 缺省时按魔数嗅探仅支持 png/jpeg/webp（请显式传 mime）"),
        ImageUse::Reference => String::from_str("仅支持 png/jpeg/webp 图片（魔数嗅探失败）"),
    }
}

/// Checks an image upload (see [`image_upload`]).
pub fn accept_image(u: ImageUse, raw: &str, mime: Option<&str>) -> (r: Result<(Vec<u8>, &'static str), UploadIssue>)
    ensures
        match r {
            Ok((b, e)) => image_upload(u, raw@, opt_view(mime)) == Ok::<(Seq<u8>, Seq<char>), IssueModel>(
                (b@, e@),
            ),
            Err(i) => image_upload(u, raw@, opt_view(mime)) == Err::<(Seq<u8>, Seq<char>), IssueModel>(
                issue_model(i),
            ),
        },
{
    proof {
        reveal_strlit("image_b64");
        reveal_strlit("图片");
    }
    let bytes = match decode_upload(raw, "image_b64", u == ImageUse::Portrait) {
        Ok(b) => b,
        Err(m) => return Err(UploadIssue::Rejected(m)),
    };
    if bytes.len() > IMAGE_MAX_BYTES {
        return Err(
            UploadIssue::TooLarge { subject: String::from_str("图片"), limit_mb: 10, bytes: bytes.len() },
        );
    }
    match image_kind_of(u, bytes.as_slice(), mime) {
        Ok(e) => Ok((bytes, e)),
        Err(m) => Err(UploadIssue::Rejected(m)),
    }
}

/// Whether some bytes are UTF-8 text, and the text they hold.
pub open spec fn utf8_of(b: Seq<u8>) -> Option<Seq<char>> {
    if vstd::utf8::valid_utf8(b) {
        Some(vstd::utf8::decode_utf8(b))
    } else {
        None
    }
}

/// `String::from_utf8`: the text of the bytes when they are valid UTF-8.
#[verifier::external_body]
fn utf8_string(bytes: Vec<u8>) -> (r: Option<String>)
    ensures
        match r {
            Some(s) => utf8_of(bytes@) == Some(s@),
            None => utf8_of(bytes@) is None,
        },
{
    String::from_utf8(bytes).ok()
}

/// What a story import gives: the bytes of `content_b64` (see
/// [`upload_bytes`]), no more than the guard `limit` (none: no guard; see
/// `story_import_max_bytes_for`), holding UTF-8 text.
pub open spec fn story_import(raw: Seq<char>, limit: Option<usize>) -> Result<Seq<char>, IssueModel> {
    match upload_bytes(raw, "content_b64"@, false) {
        Err(m) => Err(IssueModel::Rejected(m)),
        Ok(b) => if limit is Some && b.len() > limit.unwrap() {
            Err(IssueModel::TooLarge("导入原文"@, limit.unwrap() as nat / 1048576, b.len()))
        } else {
            match utf8_of(b) {
                Some(t) => Ok(t),
                None => Err(IssueModel::Rejected("导入原文须为 UTF-8 文本"@)),
            }
        },
    }
}

/// Checks a story import and gives its text (see [`story_import`]).
pub fn accept_story_text(raw: &str, limit: Option<usize>) -> (r: Result<String, UploadIssue>)
    ensures
        match r {
            Ok(t) => story_import(raw@, limit) == Ok::<Seq<char>, IssueModel>(t@),
            Err(i) => story_import(raw@, limit) == Err::<Seq<char>, IssueModel>(issue_model(i)),
        },
{
    proof {
        reveal_strlit("content_b64");
        reveal_strlit("导入原文");
    }
    let bytes = match decode_upload(raw, "content_b64", false) {
        Ok(b) => b,
        Err(m) => return Err(UploadIssue::Rejected(m)),
    };
    if let Some(max) = limit {
        if bytes.len() > max {
            return Err(
                UploadIssue::TooLarge {
                    subject: String::from_str("导入原文"),
                    limit_mb: max / 1048576,
                    bytes: bytes.len(),
                },
            );
        }
    }
    match utf8_string(bytes) {
        Some(t) => Ok(t),
        None => Err(UploadIssue::Rejected(String::from_str("导入原文须为 UTF-8 文本"))),
    }
}

/// What a BGM track import gives: the bytes of `track_b64` (see
/// [`upload_bytes`]), at most [`BGM_IMPORT_MAX_BYTES`] of them.
pub open spec fn track_import(raw: Seq<char>) -> Result<Seq<u8>, IssueModel> {
    match upload_bytes(raw, "track_b64"@, false) {
        Err(m) => Err(IssueModel::Rejected(m)),
        Ok(b) => if b.len() > BGM_IMPORT_MAX_BYTES {
            Err(IssueModel::TooLarge("音频"@, 20, b.len()))
        } else {
            Ok(b)
        },
    }
}

/// Checks a BGM track import and gives its bytes (see [`track_import`]).
pub fn accept_track(raw: &str) -> (r: Result<Vec<u8>, UploadIssue>)
    ensures
        match r {
            Ok(b) => track_import(raw@) == Ok::<Seq<u8>, IssueModel>(b@),
            Err(i) => track_import(raw@) == Err::<Seq<u8>, IssueModel>(issue_model(i)),
        },
{
    proof {
        reveal_strlit("track_b64");
        reveal_strlit("音频");
    }
    let bytes = match decode_upload(raw, "track_b64", false) {
        Ok(b) => b,
        Err(m) => return Err(UploadIssue::Rejected(m)),
    };
    if bytes.len() > BGM_IMPORT_MAX_BYTES {
        return Err(
            UploadIssue::TooLarge { subject: String::from_str("音频"), limit_mb: 20, bytes: bytes.len() },
        );
    }
    Ok(bytes)
}

} // verus!
