//! Imported story text: the size guard of an import, the rule-based
//! cleaning of a novel's text, the base name of a source file and the
//! chapter ranges a request names.
use vstd::prelude::*;
use crate::paths::{slug, slugify};
use crate::text::{
    after_last, chars_of, contains, find_from, join, line_ranges, lines, parse_u64,
    parse_u64_trimmed, rfind_char, rfind_char_in, split_once, strip_range, strs, trim, CharSet,
};

verus! {

// ---------------------------------------------------------------------------
// Size guard
// ---------------------------------------------------------------------------

/// The import guard when none is configured: 64 MiB.
pub const STORY_IMPORT_DEFAULT_MB: u64 = 64;

/// A limit in MiB as configured: the trimmed number, or `default` when the
/// text is empty or no number; `0` stands for no limit.
pub open spec fn mb_limit(raw: Seq<char>, default: u64) -> u64 {
    match parse_u64(trim(raw)) {
        Some(v) => v,
        None => default,
    }
}

/// Reads a limit in MiB (see [`mb_limit`]).
pub fn parse_mb_limit(raw: &str, default: u64) -> (r: u64)
    ensures
        r == mb_limit(raw@, default),
{
    match parse_u64_trimmed(raw) {
        Some(v) => v,
        None => default,
    }
}

/// The import guard in bytes for a configured value (`None` when unset):
/// none for `0`, else the MiB in bytes (at most `usize::MAX`).
pub open spec fn import_limit(raw: Option<Seq<char>>) -> Option<nat> {
    let mb = mb_limit(
        match raw {
            Some(r) => r,
            None => Seq::<char>::empty(),
        },
        STORY_IMPORT_DEFAULT_MB,
    );
    if mb == 0 {
        None
    } else if mb * 1048576 > usize::MAX {
        Some(usize::MAX as nat)
    } else {
        Some((mb * 1048576) as nat)
    }
}

/// The import guard in bytes for a configured value (see [`import_limit`]).
pub fn story_import_max_bytes_for(raw: Option<&str>) -> (r: Option<usize>)
    ensures
        match r {
            Some(n) => import_limit(match raw {
                Some(s) => Some(s@),
                None => None,
            }) == Some(n as nat),
            None => import_limit(match raw {
                Some(s) => Some(s@),
                None => None,
            }) is None,
        },
{
    let mb = match raw {
        Some(s) => parse_mb_limit(s, STORY_IMPORT_DEFAULT_MB),
        None => parse_mb_limit("", STORY_IMPORT_DEFAULT_MB),
    };
    proof {
        reveal_strlit("");
    }
    if mb == 0 {
        None
    } else if mb > (usize::MAX / 1048576) as u64 {
        Some(usize::MAX)
    } else {
        Some(mb as usize * 1048576)
    }
}

// ---------------------------------------------------------------------------
// Rule-based cleaning
// ---------------------------------------------------------------------------

/// A character of CJK text: ideographs (with extension A), CJK symbols and
/// punctuation, and the full-width forms.
pub open spec fn is_cjk(c: char) -> bool {
    ('\u{4E00}' <= c && c <= '\u{9FFF}') || ('\u{3400}' <= c && c <= '\u{4DBF}') || ('\u{3000}' <= c
        && c <= '\u{303F}') || ('\u{FF00}' <= c && c <= '\u{FFEF}')
}

/// The ASCII punctuation that takes its full-width form in CJK text.
pub open spec fn half_punct(c: char) -> bool {
    c == ',' || c == ':' || c == ';' || c == '!' || c == '?'
}

/// The full-width form of a punctuation mark.
pub open spec fn full_punct(c: char) -> char {
    if c == ',' {
        '，'
    } else if c == ':' {
        '：'
    } else if c == ';' {
        '；'
    } else if c == '!' {
        '！'
    } else if c == '?' {
        '？'
    } else {
        c
    }
}

/// Whether the mark at `i` stands next to a CJK character.
pub open spec fn converts_at(l: Seq<char>, i: int) -> bool {
    half_punct(l[i]) && ((i > 0 && is_cjk(l[i - 1])) || (i + 1 < l.len() && is_cjk(l[i + 1])))
}

/// A line with each ASCII mark next to CJK text in its full-width form;
/// marks in ASCII text stay.
pub open spec fn normalize_punct(l: Seq<char>) -> Seq<char> {
    Seq::new(l.len(), |i: int| if converts_at(l, i) { full_punct(l[i]) } else { l[i] })
}

/// The markers of an advertising line: links and the usual appeals of web
/// novel sites.
pub open spec fn ad_markers() -> Seq<Seq<char>> {
    seq!["http://"@, "https://"@, "www."@, "更多精彩"@, "求收藏"@, "求月票"@, "求推荐"@]
}

/// Whether a line advertises.
pub open spec fn is_ad(l: Seq<char>) -> bool {
    exists|k: int| 0 <= k < ad_markers().len() && contains(l, #[trigger] ad_markers()[k])
}

/// The lines kept, trimmed and with their punctuation normalized:
/// advertising lines dropped.
pub open spec fn kept_lines(ls: Seq<Seq<char>>) -> Seq<Seq<char>>
    decreases ls.len(),
{
    if ls.len() == 0 {
        seq![]
    } else {
        let k = kept_lines(ls.drop_last());
        let t = trim(ls.last());
        if is_ad(t) {
            k
        } else {
            k.push(normalize_punct(t))
        }
    }
}

/// The number of advertising lines.
pub open spec fn ad_count(ls: Seq<Seq<char>>) -> nat
    decreases ls.len(),
{
    if ls.len() == 0 {
        0
    } else {
        ad_count(ls.drop_last()) + if is_ad(trim(ls.last())) {
            1nat
        } else {
            0nat
        }
    }
}

/// Lines with no blank line first and no two blank lines in a row.
pub open spec fn collapse_blanks(ls: Seq<Seq<char>>) -> Seq<Seq<char>>
    decreases ls.len(),
{
    if ls.len() == 0 {
        seq![]
    } else {
        let c = collapse_blanks(ls.drop_last());
        let x = ls.last();
        if x.len() == 0 && (c.len() == 0 || c.last().len() == 0) {
            c
        } else {
            c.push(x)
        }
    }
}

/// Lines without a final blank line.
pub open spec fn drop_final_blank(ls: Seq<Seq<char>>) -> Seq<Seq<char>> {
    if ls.len() > 0 && ls.last().len() == 0 {
        ls.drop_last()
    } else {
        ls
    }
}

/// The lines of a cleaned text.
pub open spec fn cleaned_lines(text: Seq<char>) -> Seq<Seq<char>> {
    drop_final_blank(collapse_blanks(kept_lines(lines(text))))
}

/// A cleaned text: its lines trimmed, advertising lines dropped, runs of
/// blank lines folded to one, no blank line first or last, ASCII marks in
/// CJK text made full-width; lines joined by `\n`.
pub open spec fn cleaned_text(text: Seq<char>) -> Seq<char> {
    join(cleaned_lines(text), "\n"@)
}

/// The number of blank lines.
pub open spec fn blank_count(ls: Seq<Seq<char>>) -> nat
    decreases ls.len(),
{
    if ls.len() == 0 {
        0
    } else {
        blank_count(ls.drop_last()) + if ls.last().len() == 0 {
            1nat
        } else {
            0nat
        }
    }
}

/// What cleaning did.
#[derive(Debug, Clone, Copy, PartialEq, Eq)]
pub struct CleanReport {
    /// Characters before.
    pub chars_in: usize,
    /// Characters after.
    pub chars_out: usize,
    /// Advertising lines dropped.
    pub ad_lines_removed: usize,
    /// Blank lines dropped.
    pub blank_lines_removed: usize,
}

fn cjk(c: char) -> (b: bool)
    ensures
        b == is_cjk(c),
{
    ('\u{4E00}' <= c && c <= '\u{9FFF}') || ('\u{3400}' <= c && c <= '\u{4DBF}') || ('\u{3000}' <= c
        && c <= '\u{303F}') || ('\u{FF00}' <= c && c <= '\u{FFEF}')
}

fn full_width(c: char) -> (r: char)
    ensures
        r == full_punct(c),
{
    if c == ',' {
        '，'
    } else if c == ':' {
        '：'
    } else if c == ';' {
        '；'
    } else if c == '!' {
        '！'
    } else if c == '?' {
        '？'
    } else {
        c
    }
}

fn normalized_line(v: &Vec<char>, lo: usize, hi: usize) -> (r: String)
    requires
        lo <= hi <= v.len(),
    ensures
        r@ == normalize_punct(v@.subrange(lo as int, hi as int)),
{
    let ghost l = v@.subrange(lo as int, hi as int);
    let mut r = String::new();
    let mut i = lo;
    while i < hi
        invariant
            lo <= i <= hi <= v.len(),
            l == v@.subrange(lo as int, hi as int),
            r@ == normalize_punct(l).take(i - lo),
        decreases hi - i,
    {
        let c = v[i];
        let half = c == ',' || c == ':' || c == ';' || c == '!' || c == '?';
        let conv = half && ((i > lo && cjk(v[i - 1])) || (i + 1 < hi && cjk(v[i + 1])));
        let d = if conv {
            full_width(c)
        } else {
            c
        };
        proof {
            let k = i - lo;
            assert(l[k] == c);
            if k > 0 {
                assert(l[k - 1] == v@[i - 1]);
            }
            if k + 1 < l.len() {
                assert(l[k + 1] == v@[i + 1]);
            }
            assert(conv == converts_at(l, k));
            assert(normalize_punct(l)[k] == d);
            assert(normalize_punct(l).take(k + 1) =~= normalize_punct(l).take(k).push(d));
        }
        crate::text::push_char(&mut r, d);
        i = i + 1;
    }
    assert(normalize_punct(l).take(hi - lo) =~= normalize_punct(l));
    r
}

fn ad_line(v: &Vec<char>, lo: usize, hi: usize) -> (b: bool)
    requires
        lo <= hi <= v.len(),
    ensures
        b == is_ad(v@.subrange(lo as int, hi as int)),
{
    let ghost l = v@.subrange(lo as int, hi as int);
    let mut line: Vec<char> = Vec::new();
    let mut i = lo;
    while i < hi
        invariant
            lo <= i <= hi <= v.len(),
            line@ == v@.subrange(lo as int, i as int),
        decreases hi - i,
    {
        line.push(v[i]);
        assert(line@ =~= v@.subrange(lo as int, i + 1));
        i = i + 1;
    }
    let markers: [&str; 7] = ["http://", "https://", "www.", "更多精彩", "求收藏", "求月票", "求推荐"];
    proof {
        reveal_strlit("http://");
        reveal_strlit("https://");
        reveal_strlit("www.");
        reveal_strlit("更多精彩");
        reveal_strlit("求收藏");
        reveal_strlit("求月票");
        reveal_strlit("求推荐");
        assert(line@.skip(0) =~= line@);
    }
    let mut k: usize = 0;
    while k < 7
        invariant
            k <= 7,
            lo <= hi <= v.len(),
            l == v@.subrange(lo as int, hi as int),
            line@ == l,
            line@.skip(0) == line@,
            forall|j: int| 0 <= j < 7 ==> (#[trigger] markers@[j])@ == ad_markers()[j],
            forall|j: int| 0 <= j < k ==> !contains(l, #[trigger] ad_markers()[j]),
        decreases 7 - k,
    {
        let pat = chars_of(markers[k]);
        match find_from(&line, 0, &pat) {
            Some(_) => {
                assert(markers@[k as int]@ == ad_markers()[k as int]);
                assert(pat@ == ad_markers()[k as int]);
                assert(contains(l, ad_markers()[k as int]));
                return true;
            },
            None => {},
        }
        k = k + 1;
    }
    false
}

proof fn lemma_take_step(ls: Seq<Seq<char>>, i: int)
    requires
        0 <= i < ls.len(),
    ensures
        ls.take(i + 1).drop_last() == ls.take(i),
        ls.take(i + 1).last() == ls[i],
{
    assert(ls.take(i + 1).drop_last() =~= ls.take(i));
}

/// Cleans an imported text by rule (see [`cleaned_text`]) and reports what
/// was removed.
pub fn clean_text_rules(text: &str) -> (r: (String, CleanReport))
    ensures
        r.0@ == cleaned_text(text@),
        r.1.chars_in == text@.len(),
        r.1.chars_out == r.0@.len(),
        r.1.ad_lines_removed == ad_count(lines(text@)),
        r.1.blank_lines_removed + blank_count(cleaned_lines(text@)) == blank_count(
            kept_lines(lines(text@)),
        ),
{
    let v = chars_of(text);
    let ranges = line_ranges(&v);
    let ghost ls = lines(v@);
    let mut out: Vec<String> = Vec::new();
    let mut ads: usize = 0;
    let mut removed: usize = 0;
    let mut i: usize = 0;
    assert(ls.take(0) =~= Seq::<Seq<char>>::empty());
    assert(strs(out@) =~= Seq::<Seq<char>>::empty());
    while i < ranges.len()
        invariant
            i <= ranges@.len(),
            ls == lines(v@),
            ranges@.len() == ls.len(),
            forall|j: int| 0 <= j < ranges@.len() ==> (#[trigger] ranges@[j]).0 <= ranges@[j].1 <= v@.len(),
            forall|j: int|
                0 <= j < ranges@.len() ==> #[trigger] ls[j] == v@.subrange(
                    ranges@[j].0 as int,
                    ranges@[j].1 as int,
                ),
            strs(out@) == collapse_blanks(kept_lines(ls.take(i as int))),
            ads as nat == ad_count(ls.take(i as int)),
            blank_count(kept_lines(ls.take(i as int))) == blank_count(strs(out@)) + removed,
            ads <= i,
            removed + out@.len() <= i,
        decreases ranges.len() - i,
    {
        let (lo, hi) = ranges[i];
        let (a, b) = strip_range(&v, lo, hi, &CharSet::Space);
        proof {
            lemma_take_step(ls, i as int);
            assert(trim(ls[i as int]) == v@.subrange(a as int, b as int));
        }
        let ghost k0 = kept_lines(ls.take(i as int));
        if ad_line(&v, a, b) {
            ads = ads + 1;
            proof {
                assert(kept_lines(ls.take(i + 1)) == k0);
            }
        } else {
            let nl = normalized_line(&v, a, b);
            let ghost c0 = strs(out@);
            let blank = chars_of(nl.as_str()).len() == 0;
            let prev_blank = if out.len() == 0 {
                true
            } else {
                chars_of(out[out.len() - 1].as_str()).len() == 0
            };
            proof {
                assert(kept_lines(ls.take(i + 1)) == k0.push(nl@));
                assert(k0.push(nl@).drop_last() =~= k0);
                if out.len() > 0 {
                    assert(c0.last() == out@[out.len() - 1]@);
                }
            }
            proof {
                assert(blank_count(k0.push(nl@)) == blank_count(k0) + if nl@.len() == 0 {
                    1nat
                } else {
                    0nat
                });
                assert(c0.push(nl@).drop_last() =~= c0);
                assert(blank_count(c0.push(nl@)) == blank_count(c0) + if nl@.len() == 0 {
                    1nat
                } else {
                    0nat
                });
            }
            if blank && prev_blank {
                removed = removed + 1;
            } else {
                crate::text::push_string(&mut out, nl);
            }
        }
        i = i + 1;
    }
    assert(ls.take(ls.len() as int) =~= ls);
    let ghost collapsed = strs(out@);
    if out.len() > 0 && chars_of(out[out.len() - 1].as_str()).len() == 0 {
        let ghost before = out@;
        let _ = out.pop();
        proof {
            assert(before.drop_last() == out@);
            assert(strs(out@) =~= collapsed.drop_last());
            assert(collapsed.last() == before[before.len() - 1]@);
            assert(collapsed.drop_last().push(collapsed.last()) =~= collapsed);
            assert(blank_count(collapsed) == blank_count(strs(out@)) + 1);
        }
        removed = removed + 1;
    }
    assert(strs(out@) == cleaned_lines(v@));
    let cleaned = crate::text::join_strings(&out, "\n");
    proof {
        reveal_strlit("\n");
    }
    let n = chars_of(cleaned.as_str()).len();
    let report = CleanReport { chars_in: v.len(), chars_out: n, ad_lines_removed: ads, blank_lines_removed: removed };
    (cleaned, report)
}

// ---------------------------------------------------------------------------
// Source names and chapter ranges
// ---------------------------------------------------------------------------

/// `t` without one leading `p`.
pub open spec fn without_prefix(t: Seq<char>, p: Seq<char>) -> Seq<char> {
    if p.is_prefix_of(t) {
        t.skip(p.len() as int)
    } else {
        t
    }
}

/// The base name of a story file, as a slug: the file name without its
/// directory and extension, and without the `source-` or `cleaned-` that
/// imports and cleaning put before it; `source` when nothing is left.
pub open spec fn base_slug(path: Seq<char>) -> Seq<char> {
    let name = after_last(path, '/');
    let stem = match rfind_char(name, '.') {
        Some(k) => name.take(k),
        None => name,
    };
    let bare = if "source-"@.is_prefix_of(stem) {
        stem.skip(7)
    } else {
        without_prefix(stem, "cleaned-"@)
    };
    if slug(bare).len() == 0 {
        "source"@
    } else {
        slug(bare)
    }
}

/// The base name of a story file (see [`base_slug`]).
pub fn source_base_slug(path: &str) -> (r: String)
    ensures
        r@ == base_slug(path@),
{
    proof {
        reveal_strlit("source-");
        reveal_strlit("cleaned-");
        reveal_strlit("source");
    }
    let v = chars_of(path);
    let start = crate::text::after_last_index(&v, 0, v.len(), '/');
    let name = crate::text::string_of_range(&v, start, v.len());
    proof {
        assert(v@.subrange(0, v@.len() as int) =~= v@);
    }
    let nv = chars_of(name.as_str());
    let end = match rfind_char_in(&nv, nv.len(), '.') {
        Some(k) => k,
        None => nv.len(),
    };
    proof {
        assert(nv@.take(nv@.len() as int) =~= nv@);
    }
    let src = crate::text::pattern("source-");
    let cln = crate::text::pattern("cleaned-");
    let stem_v = crate::text::string_of_range(&nv, 0, end);
    let sv = chars_of(stem_v.as_str());
    assert(sv@.skip(0) =~= sv@);
    let from = if crate::text::occurs_at(&sv, 0, &src) {
        7
    } else if crate::text::occurs_at(&sv, 0, &cln) {
        8
    } else {
        0
    };
    let bare = crate::text::string_of_range(&sv, from, sv.len());
    proof {
        assert(nv@.subrange(0, end as int) =~= match rfind_char(nv@, '.') {
            Some(k) => nv@.take(k),
            None => nv@,
        });
        assert(sv@.subrange(from as int, sv@.len() as int) =~= sv@.skip(from as int));
        assert(sv@.skip(0) =~= sv@);
    }
    let s = slugify(bare.as_str());
    if chars_of(s.as_str()).len() == 0 {
        String::from_str("source")
    } else {
        s
    }
}

/// The chapter range a request names: `<a>-<b>` with `1 <= a <= b`, or a
/// single chapter `<n>` (`n >= 1`); numbers and the whole trimmed.
pub open spec fn chapter_range(s: Seq<char>) -> Option<(u32, u32)> {
    let t = trim(s);
    match split_once(t, '-') {
        Some((a, b)) => match (parse_u64(trim(a)), parse_u64(trim(b))) {
            (Some(x), Some(y)) => if 1 <= x && x <= y && y <= u32::MAX {
                Some((x as u32, y as u32))
            } else {
                None
            },
            _ => None,
        },
        None => match parse_u64(t) {
            Some(n) => if 1 <= n && n <= u32::MAX {
                Some((n as u32, n as u32))
            } else {
                None
            },
            None => None,
        },
    }
}

/// Reads a chapter range (see [`chapter_range`]).
pub fn parse_chapter_range(s: &str) -> (r: Option<(u32, u32)>)
    ensures
        r == chapter_range(s@),
{
    let t = crate::text::trimmed(s);
    match crate::text::split_once_strings(t.as_str(), '-') {
        Some((a, b)) => {
            let x = parse_u64_trimmed(a.as_str());
            let y = parse_u64_trimmed(b.as_str());
            assert(split_once(trim(s@), '-') == Some((a@, b@)));
            match x {
                Some(x) => match y {
                    Some(y) => {
                        if 1 <= x && x <= y && y <= u32::MAX as u64 {
                            Some((x as u32, y as u32))
                        } else {
                            None
                        }
                    },
                    None => None,
                },
                None => None,
            }
        },
        None => {
            assert(split_once(trim(s@), '-') is None);
            match parse_u64_trimmed(t.as_str()) {
                Some(n) => {
                    assert(trim(t@) == trim(s@)) by {
                        crate::text::lemma_trim_trim(s@);
                    }
                    if 1 <= n && n <= u32::MAX as u64 {
                        Some((n as u32, n as u32))
                    } else {
                        None
                    }
                },
                None => {
                    assert(trim(t@) == trim(s@)) by {
                        crate::text::lemma_trim_trim(s@);
                    }
                    None
                },
            }
        },
    }
}

// ---------------------------------------------------------------------------
// Cleaning and chapter files
// ---------------------------------------------------------------------------

/// How a source text is cleaned.
#[derive(Debug, Clone, Copy, PartialEq, Eq, Structural)]
pub enum CleanMode {
    /// By the local rules alone (see [`clean_text_rules`]).
    Rules,
    /// By the rules, then by a chat model chunk by chunk.
    Llm,
}

/// Why a cleaning request is refused (answered 400).
#[derive(Debug, Clone, Copy, PartialEq, Eq, Structural)]
pub enum CleanIssue {
    /// No (or a blank) source file.
    MissingSource,
    /// A mode other than `rules` and `llm`.
    BadMode,
    /// Mode `llm` without a model reference.
    MissingModel,
}

/// The verdict on a cleaning request: the source file must be given, the
/// mode must be `rules` or `llm` (trimmed), and `llm` needs a model.
pub open spec fn clean_verdict(source_file: Option<Seq<char>>, mode: Seq<char>, has_model: bool) -> Result<
    CleanMode,
    CleanIssue,
> {
    if source_file is None || trim(source_file->0).len() == 0 {
        Err(CleanIssue::MissingSource)
    } else if trim(mode) == "rules"@ {
        Ok(CleanMode::Rules)
    } else if trim(mode) == "llm"@ {
        if has_model {
            Ok(CleanMode::Llm)
        } else {
            Err(CleanIssue::MissingModel)
        }
    } else {
        Err(CleanIssue::BadMode)
    }
}

/// Checks a cleaning request (see [`clean_verdict`]).
pub fn check_clean_request(source_file: Option<&str>, mode: &str, has_model: bool) -> (r: Result<CleanMode, CleanIssue>)
    ensures
        r == clean_verdict(crate::media::opt_str_view(source_file), mode@, has_model),
{
    match source_file {
        None => return Err(CleanIssue::MissingSource),
        Some(f) => {
            if crate::text::blank(f) {
                return Err(CleanIssue::MissingSource);
            }
        },
    }
    let m = crate::text::trimmed(mode);
    if crate::text::str_eq(m.as_str(), "rules") {
        Ok(CleanMode::Rules)
    } else if crate::text::str_eq(m.as_str(), "llm") {
        if has_model {
            Ok(CleanMode::Llm)
        } else {
            Err(CleanIssue::MissingModel)
        }
    } else {
        Err(CleanIssue::BadMode)
    }
}

/// Where the cleaning of the source at hub path `source` writes: the
/// cleaned text `story/cleaned-<base>.txt` and its report
/// `story/cleaned-<base>.report.json`, `<base>` being [`base_slug`].
pub fn cleaned_paths(source: &str) -> (r: (String, String))
    ensures
        r.0@ == "story/cleaned-"@ + base_slug(source@) + ".txt"@,
        r.1@ == "story/cleaned-"@ + base_slug(source@) + ".report.json"@,
{
    let base = source_base_slug(source);
    let mut text = String::from_str("story/cleaned-");
    text.append(base.as_str());
    text.append(".txt");
    let mut report = String::from_str("story/cleaned-");
    report.append(base.as_str());
    report.append(".report.json");
    (text, report)
}

/// The hub path of chapter `no`: `story/chapters/ch-<no>.md`, the number
/// with at least two digits.
pub fn chapter_file(no: u32) -> (r: String)
    ensures
        r@ == "story/chapters/ch-"@ + crate::text::dec_padded(no as nat, 2) + ".md"@,
{
    let mut s = String::from_str("story/chapters/ch-");
    crate::text::push_dec_padded(&mut s, no as u64, 2);
    s.append(".md");
    s
}

} // verus!
