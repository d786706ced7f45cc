//! What the library takes from a model's answers once they are parsed:
//! the casting objects of an extraction answer, the payload fields of a
//! generation answer, and the audio of a speech or music answer.
use vstd::prelude::*;
use crate::codec::{b64_decoded, decode_payload};
use crate::ownership::{frequency_text, parse_frequency};
use crate::paths::{from_utf8_lossy, utf8_lossy};
use crate::text::{
    blank, chars_of, dec, push_dec, find, find_from, is_blank, occurs_at, pattern, split_once_strings, trim,
    trimmed,
};

verus! {

// ---------------------------------------------------------------------------
// Extraction answers
// ---------------------------------------------------------------------------

/// The `frequency` of an extracted object as the model gave it.
#[derive(Debug, Clone)]
pub enum RawFrequency {
    /// A JSON number (`Some` when it is a non-negative integer).
    Number(Option<u64>),
    /// A JSON string such as `"3"` or `"3次"`.
    Text(String),
    /// Any other JSON value.
    Other,
}

/// One extracted object as the model gave it; a field that is missing or
/// not a string is `None`.
#[derive(Debug, Clone)]
pub struct RawCastingItem {
    pub name: Option<String>,
    pub desc: Option<String>,
    pub frequency: Option<RawFrequency>,
    pub reason: Option<String>,
}

/// One extracted casting object.
#[derive(Debug, Clone)]
pub struct CastingItem {
    pub name: String,
    pub desc: String,
    pub frequency: u64,
    pub reason: String,
}

/// The value of an extracted object: name, description, frequency, reason.
pub open spec fn item_value(c: CastingItem) -> (Seq<char>, Seq<char>, u64, Seq<char>) {
    (c.name@, c.desc@, c.frequency, c.reason@)
}

/// The values of a list of extracted objects.
pub open spec fn item_values(s: Seq<CastingItem>) -> Seq<(Seq<char>, Seq<char>, u64, Seq<char>)> {
    s.map_values(|c: CastingItem| item_value(c))
}

/// A text field trimmed, empty when missing.
pub open spec fn text_or_empty(o: Option<String>) -> Seq<char> {
    match o {
        Some(s) => trim(s@),
        None => Seq::<char>::empty(),
    }
}

/// The frequency read from what the model gave: a non-negative integer, or
/// a text count (see [`frequency_text`]); 0 otherwise.
pub open spec fn frequency_of(f: Option<RawFrequency>) -> u64 {
    match f {
        Some(RawFrequency::Number(Some(n))) => n,
        Some(RawFrequency::Text(s)) => match frequency_text(s@) {
            Some(n) => n,
            None => 0,
        },
        _ => 0,
    }
}

/// An extracted object: kept when its name, trimmed, is not empty.
pub open spec fn item_of(r: RawCastingItem) -> Option<(Seq<char>, Seq<char>, u64, Seq<char>)> {
    match r.name {
        Some(n) => if is_blank(n@) {
            None
        } else {
            Some((trim(n@), text_or_empty(r.desc), frequency_of(r.frequency), text_or_empty(r.reason)))
        },
        None => None,
    }
}

/// The objects kept from one class, in order.
pub open spec fn items_of(rs: Seq<RawCastingItem>) -> Seq<(Seq<char>, Seq<char>, u64, Seq<char>)>
    decreases rs.len(),
{
    if rs.len() == 0 {
        seq![]
    } else {
        let rest = items_of(rs.drop_last());
        match item_of(rs.last()) {
            Some(v) => rest.push(v),
            None => rest,
        }
    }
}

fn text_copy(o: &Option<String>) -> (r: String)
    ensures
        r@ == text_or_empty(*o),
{
    match o {
        Some(s) => trimmed(s.as_str()),
        None => String::new(),
    }
}

fn frequency_value(f: &Option<RawFrequency>) -> (n: u64)
    ensures
        n == frequency_of(*f),
{
    match f {
        Some(RawFrequency::Number(Some(n))) => *n,
        Some(RawFrequency::Text(s)) => match parse_frequency(s.as_str()) {
            Some(n) => n,
            None => 0,
        },
        _ => 0,
    }
}

/// The objects kept from one class of an extraction answer (see [`item_of`]).
pub fn casting_items(raw: &Vec<RawCastingItem>) -> (r: Vec<CastingItem>)
    ensures
        item_values(r@) == items_of(raw@),
{
    let mut out: Vec<CastingItem> = Vec::new();
    let mut i: usize = 0;
    assert(raw@.take(0) =~= Seq::<RawCastingItem>::empty());
    assert(item_values(out@) =~= Seq::<(Seq<char>, Seq<char>, u64, Seq<char>)>::empty());
    while i < raw.len()
        invariant
            i <= raw@.len(),
            item_values(out@) == items_of(raw@.take(i as int)),
        decreases raw.len() - i,
    {
        assert(raw@.take(i + 1).drop_last() =~= raw@.take(i as int));
        assert(raw@.take(i + 1).last() == raw@[i as int]);
        let r = &raw[i];
        if let Some(n) = &r.name {
            if !blank(n.as_str()) {
                let ghost before = out@;
                out.push(
                    CastingItem {
                        name: trimmed(n.as_str()),
                        desc: text_copy(&r.desc),
                        frequency: frequency_value(&r.frequency),
                        reason: text_copy(&r.reason),
                    },
                );
                assert(item_values(out@) =~= item_values(before).push(item_value(out@.last())));
            }
        }
        i = i + 1;
    }
    assert(raw@.take(raw@.len() as int) =~= raw@);
    out
}

/// The classes of an extraction answer, each the objects kept from it (a
/// class that is missing or no array has none); `None` when every class
/// is empty.
pub open spec fn extraction_of(classes: Seq<Option<Seq<RawCastingItem>>>) -> Option<
    Seq<Seq<(Seq<char>, Seq<char>, u64, Seq<char>)>>,
> {
    let kept = Seq::new(
        classes.len(),
        |k: int|
            match classes[k] {
                Some(rs) => items_of(rs),
                None => Seq::<(Seq<char>, Seq<char>, u64, Seq<char>)>::empty(),
            },
    );
    if forall|k: int| 0 <= k < kept.len() ==> (#[trigger] kept[k]).len() == 0 {
        None
    } else {
        Some(kept)
    }
}

/// The raw classes of one parsed answer (`None` for a missing class).
pub open spec fn raw_classes(v: Seq<Option<Vec<RawCastingItem>>>) -> Seq<Option<Seq<RawCastingItem>>> {
    v.map_values(
        |o: Option<Vec<RawCastingItem>>|
            match o {
                Some(x) => Some(x@),
                None => None,
            },
    )
}

/// The values of the classes given back.
pub open spec fn class_values(v: Seq<Vec<CastingItem>>) -> Seq<Seq<(Seq<char>, Seq<char>, u64, Seq<char>)>> {
    v.map_values(|c: Vec<CastingItem>| item_values(c@))
}

/// The classes of one parsed extraction answer (see [`extraction_of`]).
pub fn extraction_from(classes: &Vec<Option<Vec<RawCastingItem>>>) -> (r: Option<Vec<Vec<CastingItem>>>)
    ensures
        match r {
            Some(v) => extraction_of(raw_classes(classes@)) == Some(class_values(v@)),
            None => extraction_of(raw_classes(classes@)) is None,
        },
{
    let ghost rc = raw_classes(classes@);
    let ghost kept = Seq::new(
        rc.len(),
        |k: int|
            match rc[k] {
                Some(rs) => items_of(rs),
                None => Seq::<(Seq<char>, Seq<char>, u64, Seq<char>)>::empty(),
            },
    );
    let mut out: Vec<Vec<CastingItem>> = Vec::new();
    let mut any = false;
    let mut k: usize = 0;
    while k < classes.len()
        invariant
            k <= classes@.len(),
            rc == raw_classes(classes@),
            rc.len() == classes@.len(),
            kept.len() == rc.len(),
            forall|j: int| 0 <= j < kept.len() ==> #[trigger] kept[j] == match rc[j] {
                Some(rs) => items_of(rs),
                None => Seq::<(Seq<char>, Seq<char>, u64, Seq<char>)>::empty(),
            },
            class_values(out@) == kept.take(k as int),
            any == exists|j: int| 0 <= j < k && (#[trigger] kept[j]).len() > 0,
        decreases classes.len() - k,
    {
        let items = match &classes[k] {
            Some(rs) => casting_items(rs),
            None => Vec::new(),
        };
        proof {
            assert(rc[k as int] == match classes@[k as int] {
                Some(x) => Some(x@),
                None => None::<Seq<RawCastingItem>>,
            });
        }
        assert(item_values(items@) == kept[k as int]);
        if items.len() > 0 {
            any = true;
        }
        let ghost before = out@;
        out.push(items);
        assert(class_values(out@) =~= class_values(before).push(kept[k as int]));
        assert(kept.take(k + 1) =~= kept.take(k as int).push(kept[k as int]));
        k = k + 1;
    }
    assert(kept.take(kept.len() as int) =~= kept);
    if any {
        Some(out)
    } else {
        None
    }
}

/// The first parsed answer whose classes are not all empty.
pub open spec fn first_extraction_of(cands: Seq<Option<Seq<Option<Seq<RawCastingItem>>>>>) -> Option<
    Seq<Seq<(Seq<char>, Seq<char>, u64, Seq<char>)>>,
>
    decreases cands.len(),
{
    if cands.len() == 0 {
        None
    } else {
        match cands[0] {
            Some(c) => match extraction_of(c) {
                Some(x) => Some(x),
                None => first_extraction_of(cands.drop_first()),
            },
            None => first_extraction_of(cands.drop_first()),
        }
    }
}

/// The candidates of an extraction answer: each JSON object found in it,
/// parsed into its classes (`None` when it did not parse as an object).
pub open spec fn raw_candidates(v: Seq<Option<Vec<Option<Vec<RawCastingItem>>>>>) -> Seq<
    Option<Seq<Option<Seq<RawCastingItem>>>>,
> {
    v.map_values(
        |o: Option<Vec<Option<Vec<RawCastingItem>>>>|
            match o {
                Some(x) => Some(raw_classes(x@)),
                None => None,
            },
    )
}

/// The casting objects of an extraction answer: those of the first
/// candidate object with any; the message when none has.
pub fn first_extraction(cands: &Vec<Option<Vec<Option<Vec<RawCastingItem>>>>>) -> (r: Result<
    Vec<Vec<CastingItem>>,
    String,
>)
    ensures
        match r {
            Ok(v) => first_extraction_of(raw_candidates(cands@)) == Some(class_values(v@)),
            Err(m) => first_extraction_of(raw_candidates(cands@)) is None && m@
                == "无法从 LLM 输出解析出六类定妆对象 JSON 对象"@,
        },
{
    let ghost rc = raw_candidates(cands@);
    let mut i: usize = 0;
    assert(rc.skip(0) =~= rc);
    while i < cands.len()
        invariant
            i <= cands@.len(),
            rc == raw_candidates(cands@),
            rc.len() == cands@.len(),
            first_extraction_of(rc) == first_extraction_of(rc.skip(i as int)),
        decreases cands.len() - i,
    {
        assert(rc.skip(i as int).drop_first() =~= rc.skip(i + 1));
        assert(rc.skip(i as int)[0] == rc[i as int]);
        if let Some(c) = &cands[i] {
            assert(rc[i as int] == Some(raw_classes(c@)));
            if let Some(x) = extraction_from(c) {
                return Ok(x);
            }
        }
        i = i + 1;
    }
    assert(rc.skip(i as int) =~= Seq::<Option<Seq<Option<Seq<RawCastingItem>>>>>::empty());
    Err(String::from_str("无法从 LLM 输出解析出六类定妆对象 JSON 对象"))
}

// ---------------------------------------------------------------------------
// Generation answers
// ---------------------------------------------------------------------------

/// A data URL's payload: the text after its first `base64,`; the whole
/// text when there is none.
pub open spec fn after_b64_marker(t: Seq<char>) -> Seq<char> {
    match find(t, "base64,"@) {
        Some(k) => t.skip(k + 7),
        None => t,
    }
}

/// The base64 payload of a generation answer: the first field, in the
/// order given, whose trimmed text is not empty, taken after its `base64,`.
pub open spec fn payload_of(fields: Seq<Option<String>>) -> Option<Seq<char>>
    decreases fields.len(),
{
    if fields.len() == 0 {
        None
    } else {
        match fields[0] {
            Some(s) => if is_blank(s@) {
                payload_of(fields.drop_first())
            } else {
                Some(after_b64_marker(trim(s@)))
            },
            None => payload_of(fields.drop_first()),
        }
    }
}

/// The base64 payload of a generation answer (see [`payload_of`]); the
/// fields are `b64_json`, `video_base64`, `b64`, `audio` of the answer, then
/// of its `data[0]`.
pub fn first_payload(fields: &Vec<Option<String>>) -> (r: Option<String>)
    ensures
        match r {
            Some(p) => payload_of(fields@) == Some(p@),
            None => payload_of(fields@) is None,
        },
{
    let mut i: usize = 0;
    assert(fields@.skip(0) =~= fields@);
    while i < fields.len()
        invariant
            i <= fields@.len(),
            payload_of(fields@) == payload_of(fields@.skip(i as int)),
        decreases fields.len() - i,
    {
        assert(fields@.skip(i as int).drop_first() =~= fields@.skip(i + 1));
        assert(fields@.skip(i as int)[0] == fields@[i as int]);
        if let Some(s) = &fields[i] {
            if !blank(s.as_str()) {
                let t = trimmed(s.as_str());
                let v = chars_of(t.as_str());
                let pat = pattern("base64,");
                proof {
                    reveal_strlit("base64,");
                    assert(v@.skip(0) =~= v@);
                }
                return match find_from(&v, 0, &pat) {
                    Some(k) => {
                        proof {
                            crate::text::lemma_find_bounds(v@, pat@);
                        }
                        assert(v@.subrange(k + 7, v@.len() as int) =~= v@.skip(k + 7));
                        Some(crate::text::string_of_range(&v, k + 7, v.len()))
                    },
                    None => Some(t),
                };
            }
        }
        i = i + 1;
    }
    assert(fields@.skip(i as int) =~= Seq::<Option<String>>::empty());
    None
}

/// Whether a text is an http(s) URL.
pub open spec fn web_url(t: Seq<char>) -> bool {
    "http://"@.is_prefix_of(t) || "https://"@.is_prefix_of(t)
}

/// The download URL of a generation answer: the first field, in the order
/// given, whose trimmed text is an http(s) URL, trimmed.
pub open spec fn url_of(fields: Seq<Option<String>>) -> Option<Seq<char>>
    decreases fields.len(),
{
    if fields.len() == 0 {
        None
    } else {
        match fields[0] {
            Some(s) => if web_url(trim(s@)) {
                Some(trim(s@))
            } else {
                url_of(fields.drop_first())
            },
            None => url_of(fields.drop_first()),
        }
    }
}

/// The download URL of a generation answer (see [`url_of`]); the fields are
/// `url`, `video_url`, `audio_url` of the answer, then of its `data[0]`.
pub fn first_url(fields: &Vec<Option<String>>) -> (r: Option<String>)
    ensures
        match r {
            Some(u) => url_of(fields@) == Some(u@),
            None => url_of(fields@) is None,
        },
{
    let http = pattern("http://");
    let https = pattern("https://");
    proof {
        reveal_strlit("http://");
        reveal_strlit("https://");
    }
    let mut i: usize = 0;
    assert(fields@.skip(0) =~= fields@);
    while i < fields.len()
        invariant
            i <= fields@.len(),
            http@ == "http://"@,
            https@ == "https://"@,
            url_of(fields@) == url_of(fields@.skip(i as int)),
        decreases fields.len() - i,
    {
        assert(fields@.skip(i as int).drop_first() =~= fields@.skip(i + 1));
        assert(fields@.skip(i as int)[0] == fields@[i as int]);
        if let Some(s) = &fields[i] {
            let t = trimmed(s.as_str());
            let v = chars_of(t.as_str());
            assert(v@.skip(0) =~= v@);
            if occurs_at(&v, 0, &http) || occurs_at(&v, 0, &https) {
                return Some(t);
            }
        }
        i = i + 1;
    }
    assert(fields@.skip(i as int) =~= Seq::<Option<String>>::empty());
    None
}

// ---------------------------------------------------------------------------
// Speech and music answers
// ---------------------------------------------------------------------------

/// The first bytes of an answer that are looked at: at most 256.
pub open spec fn answer_head(b: Seq<u8>) -> Seq<u8> {
    if b.len() <= 256 {
        b
    } else {
        b.take(256)
    }
}

/// Whether an answer looks like JSON: its head, read as text and trimmed,
/// starts with `{` or `[`.
pub open spec fn looks_json(b: Seq<u8>) -> bool {
    let h = trim(utf8_lossy(answer_head(b)));
    h.len() > 0 && (h[0] == '{' || h[0] == '[')
}

/// Whether an audio answer looks like JSON (see [`looks_json`]); the caller
/// then parses it and looks for its payload.
pub fn answer_looks_json(bytes: &[u8]) -> (b: bool)
    ensures
        b == looks_json(bytes@),
{
    let n = if bytes.len() <= 256 {
        bytes.len()
    } else {
        256
    };
    let mut head: Vec<u8> = Vec::new();
    let mut i: usize = 0;
    while i < n
        invariant
            i <= n <= bytes@.len(),
            head@ == bytes@.take(i as int),
        decreases n - i,
    {
        head.push(bytes[i]);
        assert(head@ =~= bytes@.take(i + 1));
        i = i + 1;
    }
    assert(head@ =~= answer_head(bytes@));
    let text = from_utf8_lossy(head.as_slice());
    let t = trimmed(text.as_str());
    let v = chars_of(t.as_str());
    v.len() > 0 && (v[0] == '{' || v[0] == '[')
}

/// The first 200 characters of an answer read as text.
pub open spec fn answer_detail(b: Seq<u8>) -> Seq<char> {
    let t = utf8_lossy(b);
    if t.len() <= 200 {
        t
    } else {
        t.take(200)
    }
}

/// The audio an answer gives. `json` is `None` unless the answer looks like
/// JSON and parses; then it holds the payload found in it (see
/// [`payload_of`]). A JSON answer with a payload gives the decoded payload,
/// one without is refused naming its start; any other answer is the audio
/// itself.
pub open spec fn audio_of(bytes: Seq<u8>, json: Option<Option<String>>) -> Result<Seq<u8>, Seq<char>> {
    match json {
        Some(Some(p)) => match b64_decoded(trim(p@)) {
            Ok(b) => Ok(b),
            Err(e) => Err("音频 b64 解码失败: "@ + e),
        },
        Some(None) => Err("上游返回 JSON 但无音频字段: "@ + answer_detail(bytes)),
        None => Ok(bytes),
    }
}

/// The audio an answer gives (see [`audio_of`]).
pub fn audio_from_answer(bytes: &[u8], json: Option<Option<String>>) -> (r: Result<Vec<u8>, String>)
    ensures
        match r {
            Ok(v) => audio_of(bytes@, json) == Ok::<Seq<u8>, Seq<char>>(v@),
            Err(m) => audio_of(bytes@, json) == Err::<Seq<u8>, Seq<char>>(m@),
        },
{
    proof {
        reveal_strlit("音频");
    }
    match json {
        Some(Some(p)) => {
            let r = decode_payload(p.as_str(), "音频");
            match &r {
                Ok(v) => {
                    assert(b64_decoded(trim(p@)) == Ok::<Seq<u8>, Seq<char>>(v@));
                },
                Err(m) => {
                    proof {
                        reveal_strlit(" b64 解码失败: ");
                        reveal_strlit("音频 b64 解码失败: ");
                        assert("音频"@ + " b64 解码失败: "@ =~= "音频 b64 解码失败: "@);
                    }
                },
            }
            r
        },
        Some(None) => {
            let text = from_utf8_lossy(bytes);
            let v = chars_of(text.as_str());
            let n = if v.len() <= 200 {
                v.len()
            } else {
                200
            };
            let mut m = String::new();
            m.append("上游返回 JSON 但无音频字段: ");
            crate::text::push_range(&mut m, &v, 0, n);
            assert(v@.subrange(0, n as int) =~= answer_detail(bytes@));
            Err(m)
        },
        None => {
            let mut out: Vec<u8> = Vec::new();
            let mut i: usize = 0;
            while i < bytes.len()
                invariant
                    i <= bytes@.len(),
                    out@ == bytes@.take(i as int),
                decreases bytes.len() - i,
            {
                out.push(bytes[i]);
                assert(out@ =~= bytes@.take(i + 1));
                i = i + 1;
            }
            assert(bytes@.take(bytes@.len() as int) =~= bytes@);
            Ok(out)
        },
    }
}

/// The number of objects over all classes.
pub open spec fn total_items(v: Seq<Seq<(Seq<char>, Seq<char>, u64, Seq<char>)>>) -> nat
    decreases v.len(),
{
    if v.len() == 0 {
        0
    } else {
        total_items(v.drop_last()) + v.last().len()
    }
}

/// What a casting extraction records once its report is stored at `path`.
pub struct ExtractDone {
    /// The number of objects over the six classes.
    pub total: u64,
    /// The README progress line.
    pub progress: String,
    /// The task's closing line.
    pub done_line: String,
}

/// The error of an answer that is not an extraction.
pub open spec fn extraction_error(e: Seq<char>) -> Seq<char> {
    "LLM 输出无法解析为六类定妆对象 JSON："@ + e
}

/// What a casting extraction does with the parse of the model's answer, its
/// report being stored at `path`: a parse failure ends the task with the
/// extraction error; otherwise the README counts the objects of all classes
/// and the task ends naming the report.
pub fn extract_outcome(parsed: &Result<Vec<Vec<CastingItem>>, String>, path: &str) -> (r: Result<ExtractDone, String>)
    requires
        parsed matches Ok(v) ==> total_items(class_values(v@)) <= u64::MAX,
    ensures
        match (parsed, r) {
            (Ok(v), Ok(d)) => {
                &&& d.total == total_items(class_values(v@))
                &&& d.progress@ == "定妆提取完成（六类共 "@ + dec(d.total as nat) + " 个对象）"@
                &&& d.done_line@ == "定妆提取已存 "@ + path@
            },
            (Err(e), Err(m)) => m@ == extraction_error(e@),
            _ => false,
        },
{
    match parsed {
        Err(e) => {
            let mut m = String::from_str("LLM 输出无法解析为六类定妆对象 JSON：");
            m.append(e.as_str());
            Err(m)
        },
        Ok(v) => {
            let ghost cv = class_values(v@);
            let mut total: u64 = 0;
            let mut i: usize = 0;
            assert(cv.take(0) =~= Seq::<Seq<(Seq<char>, Seq<char>, u64, Seq<char>)>>::empty());
            while i < v.len()
                invariant
                    i <= v.len(),
                    cv == class_values(v@),
                    total_items(cv) <= u64::MAX,
                    total == total_items(cv.take(i as int)),
                decreases v.len() - i,
            {
                assert(cv.take(i + 1).drop_last() =~= cv.take(i as int));
                assert(cv[i as int].len() == v[i as int]@.len());
                proof {
                    lemma_total_prefix(cv, i + 1);
                }
                total = total + v[i].len() as u64;
                i = i + 1;
            }
            assert(cv.take(v@.len() as int) =~= cv);
            let mut progress = String::from_str("定妆提取完成（六类共 ");
            push_dec(&mut progress, total);
            progress.append(" 个对象）");
            let mut done_line = String::from_str("定妆提取已存 ");
            done_line.append(path);
            Ok(ExtractDone { total, progress, done_line })
        },
    }
}

proof fn lemma_total_prefix(v: Seq<Seq<(Seq<char>, Seq<char>, u64, Seq<char>)>>, k: int)
    requires
        0 <= k <= v.len(),
    ensures
        total_items(v.take(k)) <= total_items(v),
    decreases v.len() - k,
{
    if k < v.len() {
        lemma_total_prefix(v, k + 1);
        assert(v.take(k + 1).drop_last() =~= v.take(k));
    } else {
        assert(v.take(k) =~= v);
    }
}

/// One choice of a chat completion answer: its `message.content` when that
/// is a string.
pub struct ChatChoice {
    pub content: Option<String>,
}

/// The text of a chat completion answer, from its JSON parse (`Err` with the
/// parser's error when it is not JSON; otherwise its `choices`, empty when
/// missing or not an array): the first choice's content, else an error.
pub fn chat_content(parsed: Result<Vec<ChatChoice>, String>) -> (r: Result<String, String>)
    ensures
        match parsed {
            Err(e) => r matches Err(m) && m@ == "渠道响应非 JSON: "@ + e@,
            Ok(v) => if v.len() > 0 && v[0].content is Some {
                r matches Ok(c) && c == v[0].content->0
            } else {
                r matches Err(m) && m@ == "渠道响应缺少 choices[0].message.content"@
            },
        },
{
    match parsed {
        Err(e) => {
            let mut m = String::from_str("渠道响应非 JSON: ");
            m.append(e.as_str());
            Err(m)
        },
        Ok(v) => {
            let mut v = v;
            if v.len() > 0 {
                let first = v.swap_remove(0);
                if let Some(c) = first.content {
                    return Ok(c);
                }
            }
            Err(String::from_str("渠道响应缺少 choices[0].message.content"))
        },
    }
}

} // verus!
