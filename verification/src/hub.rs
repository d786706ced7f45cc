//! FilmHub documents and the decisions taken on them: `README.md` and
//! `project.md` contents, casting cards, BGM `info.md`, trigger validation,
//! the choice of the BGM input, and what is read off a story.
use vstd::prelude::*;
use crate::doc::{
    dashes, doc_body, doc_table, fm_key_ok, fm_render, fm_value_ok, increasing, key_lt,
    law_front_matter_roundtrip, lemma_table_at, lemma_table_unique, render_doc, split_front_matter,
    table, FrontMatter,
};
use crate::model::{opt_view, FilmCharacter, FilmProject};
use crate::media::opt_str_view;
use crate::paths::{dist_root, dist_root_of, slug, slugify, take_chars};
use crate::text::{
    blank, chars_of, dec, is_blank, is_ws, join, join_strings, lemma_dec_digits, lemma_parse_dec,
    lemma_trim_fixed, lemma_trim_trim,
    line_ranges, lines, occurs_at, parse_u64, parse_u64_chars, push_dec, push_range,
    rfind_char, rfind_char_in, str_eq, string_of_range, strip_range, strs, trim, trimmed, CharSet,
};

verus! {

// ---------------------------------------------------------------------------
// Stages
// ---------------------------------------------------------------------------

/// The README label of a stage.
pub open spec fn stage_name(stage: Seq<char>) -> Seq<char> {
    if stage == "story"@ {
        "剧情"@
    } else if stage == "storyboard"@ {
        "分镜"@
    } else if stage == "casting"@ {
        "定妆"@
    } else if stage == "audio"@ {
        "音频"@
    } else if stage == "compose"@ {
        "合成"@
    } else {
        "未知"@
    }
}

/// The README label of a stage (`未知` for an unknown stage).
pub fn stage_label(stage: &str) -> (r: &'static str)
    ensures
        r@ == stage_name(stage@),
{
    if str_eq(stage, "story") {
        "剧情"
    } else if str_eq(stage, "storyboard") {
        "分镜"
    } else if str_eq(stage, "casting") {
        "定妆"
    } else if str_eq(stage, "audio") {
        "音频"
    } else if str_eq(stage, "compose") {
        "合成"
    } else {
        "未知"
    }
}

/// The stage a project starts from, by its status.
pub open spec fn stage_of_status(status: Seq<char>) -> Seq<char> {
    if status == "scripted"@ {
        "storyboard"@
    } else if status == "producing"@ {
        "audio"@
    } else if status == "done"@ {
        "compose"@
    } else {
        "story"@
    }
}

/// The README stage a project without a hub starts from: `scripted` →
/// `storyboard`, `producing` → `audio`, `done` → `compose`, else `story`.
pub fn status_to_stage(status: &str) -> (r: &'static str)
    ensures
        r@ == stage_of_status(status@),
{
    if str_eq(status, "scripted") {
        "storyboard"
    } else if str_eq(status, "producing") {
        "audio"
    } else if str_eq(status, "done") {
        "compose"
    } else {
        "story"
    }
}

// ---------------------------------------------------------------------------
// README.md and project.md
// ---------------------------------------------------------------------------

/// The body of `README.md`.
pub open spec fn readme_body(stage: Seq<char>, progress: Seq<char>) -> Seq<char> {
    "# FilmHub 项目\n\n- 当前阶段："@ + stage + "（"@ + stage_name(stage) + "）\n- 进度："@ + progress
        + "\n\n阶段序：story → storyboard → casting → audio → compose。\n详细契约见 docs/FILM_STUDIO.md。\n"@
}

/// `README.md`: `stage` and `progress` in the front matter, then the body.
pub open spec fn readme_doc(stage: Seq<char>, progress: Seq<char>) -> Seq<char> {
    fm_render(seq![("progress"@, progress), ("stage"@, stage)], readme_body(stage, progress))
}

/// The contents of a project's `README.md`.
pub fn readme_content(stage: &str, progress: &str) -> (r: String)
    ensures
        r@ == readme_doc(stage@, progress@),
{
    let mut fm = FrontMatter::new();
    fm.insert(String::from_str("stage"), String::from_str(stage));
    fm.insert(String::from_str("progress"), String::from_str(progress));
    let ghost e = seq![("progress"@, progress@), ("stage"@, stage@)];
    proof {
        reveal_strlit("progress");
        reveal_strlit("stage");
        assert(key_lt("progress"@, "stage"@));
        reveal_with_fuel(table, 3);
        assert(e.drop_last().drop_last() =~= Seq::<(Seq<char>, Seq<char>)>::empty());
        assert(table(e) =~= table(fm@));
        lemma_table_unique(fm@, e);
    }
    let mut body = String::new();
    body.append("# FilmHub 项目\n\n- 当前阶段：");
    body.append(stage);
    body.append("（");
    body.append(stage_label(stage));
    body.append("）\n- 进度：");
    body.append(progress);
    body.append(
        "\n\n阶段序：story → storyboard → casting → audio → compose。\n详细契约见 docs/FILM_STUDIO.md。\n",
    );
    render_doc(&fm, body.as_str())
}

/// `[(key, trim(value))]` when the value is present and not blank, else nothing.
pub open spec fn opt_entry(key: Seq<char>, value: Option<String>) -> Seq<(Seq<char>, Seq<char>)> {
    match value {
        Some(v) => if is_blank(v@) {
            seq![]
        } else {
            seq![(key, trim(v@))]
        },
        None => seq![],
    }
}

/// The front matter of `project.md`: the export directory and the style
/// hint when present (trimmed), the ratio and the title, in key order.
pub open spec fn project_entries(p: FilmProject) -> Seq<(Seq<char>, Seq<char>)> {
    opt_entry("export_dir"@, p.export_dir) + seq![("ratio"@, p.ratio@)] + opt_entry(
        "style_hint"@,
        p.style_hint,
    ) + seq![("title"@, p.title@)]
}

fn insert_present(fm: &mut FrontMatter, key: &str, value: &Option<String>)
    ensures
        opt_entry(key@, *value).len() == 0 ==> final(fm)@ == old(fm)@,
        opt_entry(key@, *value).len() == 1 ==> increasing(final(fm)@) && table(final(fm)@) == table(
            old(fm)@,
        ).insert(key@, opt_entry(key@, *value)[0].1),
{
    match value {
        Some(v) => {
            if !blank(v.as_str()) {
                fm.insert(String::from_str(key), trimmed(v.as_str()));
            }
        },
        None => {},
    }
}

/// The contents of `project.md`: title, ratio, style hint and export
/// directory in the front matter (the last two only when present, trimmed),
/// the idea as the body.
pub fn project_md_content(project: &FilmProject) -> (r: String)
    ensures
        r@ == fm_render(project_entries(*project), project.idea@),
{
    let mut fm = FrontMatter::new();
    fm.insert(String::from_str("title"), project.title.clone());
    fm.insert(String::from_str("ratio"), project.ratio.clone());
    insert_present(&mut fm, "style_hint", &project.style_hint);
    insert_present(&mut fm, "export_dir", &project.export_dir);
    let ghost e = project_entries(*project);
    proof {
        reveal_strlit("title");
        reveal_strlit("ratio");
        reveal_strlit("style_hint");
        reveal_strlit("export_dir");
        assert(key_lt("export_dir"@, "ratio"@));
        assert(key_lt("ratio"@, "style_hint"@));
        assert(key_lt("style_hint"@, "title"@));
        assert(key_lt("export_dir"@, "style_hint"@));
        assert(key_lt("export_dir"@, "title"@));
        assert(key_lt("ratio"@, "title"@));
        assert(increasing(e));
        reveal_with_fuel(table, 5);
        assert(table(e) =~= table(fm@));
        lemma_table_unique(fm@, e);
    }
    render_doc(&fm, project.idea.as_str())
}

// ---------------------------------------------------------------------------
// BGM triggers and the BGM input
// ---------------------------------------------------------------------------

/// `scene:`, the prefix of a scene trigger.
pub open spec fn scene_tag() -> Seq<char> {
    seq!['s', 'c', 'e', 'n', 'e', ':']
}

/// The normalized trigger: `global`, or `scene:` followed by the trimmed,
/// non-empty scene name, which holds no `/`. `None` for anything else.
pub open spec fn trigger_of(t: Seq<char>) -> Option<Seq<char>> {
    let x = trim(t);
    if x == "global"@ {
        Some("global"@)
    } else if scene_tag().is_prefix_of(x) && trim(x.skip(6)).len() > 0 && !trim(x.skip(6)).contains(
        '/',
    ) {
        Some(scene_tag() + trim(x.skip(6)))
    } else {
        None
    }
}

/// The message of a rejected trigger.
pub open spec fn trigger_error(t: Seq<char>) -> Seq<char> {
    "trigger 须为 global 或 scene:<场景名>（当前 "@ + trim(t) + "）"@
}

fn range_has(v: &Vec<char>, lo: usize, hi: usize, c: char) -> (b: bool)
    requires
        lo <= hi <= v.len(),
    ensures
        b == v@.subrange(lo as int, hi as int).contains(c),
{
    let ghost sub = v@.subrange(lo as int, hi as int);
    let mut i = lo;
    while i < hi
        invariant
            lo <= i <= hi <= v.len(),
            sub == v@.subrange(lo as int, hi as int),
            forall|j: int| 0 <= j < i - lo ==> sub[j] != c,
        decreases hi - i,
    {
        if v[i] == c {
            assert(sub[i - lo] == c);
            return true;
        }
        i = i + 1;
    }
    false
}

/// Validates a BGM trigger: `global`, or `scene:<name>` with a non-empty
/// name without `/` (both trimmed). Gives the normalized trigger, or the
/// message naming what was given.
pub fn validate_trigger(trigger: &str) -> (r: Result<String, String>)
    ensures
        match r {
            Ok(s) => trigger_of(trigger@) == Some(s@),
            Err(m) => trigger_of(trigger@) is None && m@ == trigger_error(trigger@),
        },
{
    let t = trimmed(trigger);
    if str_eq(t.as_str(), "global") {
        return Ok(String::from_str("global"));
    }
    let v = chars_of(t.as_str());
    let tag: Vec<char> = vec!['s', 'c', 'e', 'n', 'e', ':'];
    assert(tag@ =~= scene_tag());
    assert(v@.skip(0) =~= v@);
    if occurs_at(&v, 0, &tag) {
        let (a, b) = strip_range(&v, 6, v.len(), &CharSet::Space);
        assert(v@.skip(6) =~= v@.subrange(6, v@.len() as int));
        if a < b && !range_has(&v, a, b, '/') {
            let mut out = String::new();
            push_range(&mut out, &tag, 0, 6);
            push_range(&mut out, &v, a, b);
            assert(tag@.subrange(0, 6) =~= scene_tag());
            return Ok(out);
        }
    }
    let mut m = String::new();
    m.append("trigger 须为 global 或 scene:<场景名>（当前 ");
    m.append(t.as_str());
    m.append("）");
    Err(m)
}

/// Validation is idempotent: a trigger it accepted, validated again, comes
/// back unchanged.
pub proof fn law_trigger_idempotent(t: Seq<char>)
    requires
        trigger_of(t) is Some,
    ensures
        trigger_of(trigger_of(t)->0) == trigger_of(t),
{
    let x = trim(t);
    reveal_strlit("global");
    if x == "global"@ {
        lemma_trim_fixed("global"@);
    } else {
        let name = trim(x.skip(6));
        let y = scene_tag() + name;
        lemma_trim_trim(x.skip(6));
        assert(y[0] == 's');
        assert(y.last() == name.last());
        lemma_trim_fixed(y);
        assert(y.subrange(0, 6) =~= scene_tag());
        assert(y.skip(6) =~= name);
        assert(y != "global"@) by {
            assert(y[0] != "global"@[0]);
        }
    }
}

/// One BGM track of a project: its name, its trigger, and whether its
/// `track.mp3` exists.
#[derive(Debug, Clone)]
pub struct BgmTrack {
    pub track: String,
    pub trigger: String,
    pub has_track: bool,
}

/// Where the compose step reads a BGM track from, relative to the project.
pub open spec fn bgm_track_path(track: Seq<char>) -> Seq<char> {
    "hub/audio/bgm/"@ + track + "/track.mp3"@
}

/// The first track, in the given order, whose trigger is `global` and whose
/// `track.mp3` exists.
pub open spec fn first_global(ts: Seq<BgmTrack>) -> Option<Seq<char>>
    decreases ts.len(),
{
    if ts.len() == 0 {
        None
    } else if ts[0].trigger@ == "global"@ && ts[0].has_track {
        Some(ts[0].track@)
    } else {
        first_global(ts.drop_first())
    }
}

/// The BGM input of the compose step and the track it comes from.
pub open spec fn bgm_choice(
    pick: Option<Seq<char>>,
    picked_has_track: bool,
    ts: Seq<BgmTrack>,
    legacy: bool,
) -> (Option<Seq<char>>, Option<Seq<char>>) {
    if pick is Some && trim(pick->0).len() > 0 {
        if picked_has_track {
            (Some(bgm_track_path(trim(pick->0))), Some(trim(pick->0)))
        } else {
            (None, None)
        }
    } else {
        match first_global(ts) {
            Some(t) => (Some(bgm_track_path(t)), Some(t)),
            None => if legacy {
                (Some("bgm.mp3"@), None)
            } else {
                (None, None)
            },
        }
    }
}

/// Chooses the BGM input of the compose step. A track named in the request
/// (trimmed, not blank) is used when its `track.mp3` exists
/// (`picked_has_track`), and nothing is used otherwise. Without a named
/// track the first track of `tracks` (in name order) with trigger `global`
/// and a `track.mp3` is used; failing that the project's legacy `bgm.mp3`
/// when it exists (`legacy_bgm`). Gives the input path relative to the
/// project and the track's name.
pub fn select_bgm_input(
    pick: Option<&str>,
    picked_has_track: bool,
    tracks: &Vec<BgmTrack>,
    legacy_bgm: bool,
) -> (r: (Option<String>, Option<String>))
    ensures
        (opt_view(r.0), opt_view(r.1)) == bgm_choice(
            opt_str_view(pick),
            picked_has_track,
            tracks@,
            legacy_bgm,
        ),
{
    if let Some(p) = pick {
        if !blank(p) {
            if picked_has_track {
                let t = trimmed(p);
                let mut path = String::new();
                path.append("hub/audio/bgm/");
                path.append(t.as_str());
                path.append("/track.mp3");
                return (Some(path), Some(t));
            }
            return (None, None);
        }
    }
    let mut i: usize = 0;
    assert(tracks@.skip(0) =~= tracks@);
    while i < tracks.len()
        invariant
            i <= tracks@.len(),
            first_global(tracks@) == first_global(tracks@.skip(i as int)),
            opt_str_view(pick) is None || is_blank(opt_str_view(pick)->0),
        decreases tracks.len() - i,
    {
        assert(tracks@.skip(i as int).drop_first() =~= tracks@.skip(i + 1));
        assert(tracks@.skip(i as int)[0] == tracks@[i as int]);
        if tracks[i].has_track && str_eq(tracks[i].trigger.as_str(), "global") {
            let t = tracks[i].track.clone();
            let mut path = String::new();
            path.append("hub/audio/bgm/");
            path.append(t.as_str());
            path.append("/track.mp3");
            assert(first_global(tracks@.skip(i as int)) == Some(tracks@[i as int].track@));
            assert(path@ == bgm_track_path(t@));
            return (Some(path), Some(t));
        }
        i = i + 1;
    }
    assert(tracks@.skip(i as int) =~= Seq::<BgmTrack>::empty());
    if legacy_bgm {
        (Some(String::from_str("bgm.mp3")), None)
    } else {
        (None, None)
    }
}

// ---------------------------------------------------------------------------
// BGM info.md
// ---------------------------------------------------------------------------

/// The front matter of a BGM `info.md`: the duration when given (in
/// decimal), the mood when given and not blank (trimmed), the trigger.
pub open spec fn bgm_info_entries(
    trigger: Seq<char>,
    mood: Option<Seq<char>>,
    duration: Option<u64>,
) -> Seq<(Seq<char>, Seq<char>)> {
    (match duration {
        Some(d) => seq![("duration"@, dec(d as nat))],
        None => seq![],
    }) + (match mood {
        Some(m) => if is_blank(m) {
            seq![]
        } else {
            seq![("mood"@, trim(m))]
        },
        None => seq![],
    }) + seq![("trigger"@, trigger)]
}

/// The contents of a BGM track's `info.md` (front matter only).
pub fn bgm_info_doc(trigger: &str, mood: Option<&str>, duration: Option<u64>) -> (r: String)
    ensures
        r@ == fm_render(bgm_info_entries(trigger@, opt_str_view(mood), duration), seq![]),
{
    let mut fm = FrontMatter::new();
    fm.insert(String::from_str("trigger"), String::from_str(trigger));
    let mut has_mood = false;
    if let Some(m) = mood {
        if !blank(m) {
            fm.insert(String::from_str("mood"), trimmed(m));
            has_mood = true;
        }
    }
    if let Some(d) = duration {
        let mut ds = String::new();
        push_dec(&mut ds, d);
        fm.insert(String::from_str("duration"), ds);
    }
    let ghost e = bgm_info_entries(trigger@, opt_str_view(mood), duration);
    proof {
        reveal_strlit("trigger");
        reveal_strlit("mood");
        reveal_strlit("duration");
        assert(key_lt("duration"@, "mood"@));
        assert(key_lt("mood"@, "trigger"@));
        assert(key_lt("duration"@, "trigger"@));
        assert(increasing(e));
        reveal_with_fuel(table, 4);
        assert(table(e) =~= table(fm@));
        lemma_table_unique(fm@, e);
    }
    let empty = String::new();
    render_doc(&fm, empty.as_str())
}

/// Writing a BGM `info.md` and reading it back gives its trigger (`global`
/// when it was empty), its mood trimmed (empty when none or blank), its
/// duration, and an empty note, when the trigger holds no newline and,
/// unless it is written in quotes, has no surrounding whitespace, and the
/// trimmed mood holds no newline.
pub proof fn law_bgm_info_roundtrip(trigger: Seq<char>, mood: Option<Seq<char>>, duration: Option<u64>)
    requires
        fm_value_ok(trigger),
        mood is Some ==> !trim(mood->0).contains('\n'),
    ensures
        ({
            let text = fm_render(bgm_info_entries(trigger, mood, duration), seq![]);
            &&& table_trigger(doc_table(text)) == if trigger.len() == 0 {
                "global"@
            } else {
                trigger
            }
            &&& table_text(doc_table(text), "mood"@) == match mood {
                Some(m) => if is_blank(m) {
                    seq![]
                } else {
                    trim(m)
                },
                None => seq![],
            }
            &&& (if doc_table(text).contains_key("duration"@) {
                parse_u64(doc_table(text)["duration"@])
            } else {
                None
            }) == duration
            &&& trim(doc_body(text)) == Seq::<char>::empty()
        }),
{
    let e = bgm_info_entries(trigger, mood, duration);
    reveal_strlit("duration");
    reveal_strlit("mood");
    reveal_strlit("trigger");
    lemma_literal_key("duration"@);
    lemma_literal_key("mood"@);
    lemma_literal_key("trigger"@);
    if mood is Some && !is_blank(mood->0) {
        lemma_trimmed_value(mood->0);
    }
    if let Some(d) = duration {
        lemma_dec_digits(d as nat);
        lemma_parse_dec(d);
        let x = dec(d as nat);
        assert(!is_ws(x[0]) && !is_ws(x.last())) by {
            assert('0' <= x[0] <= '9');
            assert('0' <= x[x.len() - 1] <= '9');
        }
        lemma_trim_fixed(x);
        assert(!x.contains('\n')) by {
            if x.contains('\n') {
                let i = choose|i: int| 0 <= i < x.len() && x[i] == '\n';
                assert('0' <= x[i] <= '9');
            }
        }
        assert(fm_value_ok(x));
    }
    assert(forall|i: int| 0 <= i < e.len() ==> fm_key_ok(#[trigger] e[i].0) && fm_value_ok(e[i].1));
    assert(forall|i: int| 1 <= i < e.len() ==> !dashes().is_prefix_of(#[trigger] e[i].0));
    law_front_matter_roundtrip(e, seq![]);
    let text = fm_render(e, seq![]);
    assert(doc_table(text) == table(e));
    assert(doc_body(text) == Seq::<char>::empty());
    assert(trim(Seq::<char>::empty()) =~= Seq::<char>::empty());
    reveal_with_fuel(table, 4);
}

/// What a BGM track's `info.md` says.
#[derive(Debug, Clone)]
pub struct BgmInfo {
    /// `global` when the document gives none or an empty one.
    pub trigger: String,
    /// Empty when the document gives none.
    pub mood: String,
    /// The `duration` value when it reads as a `u64`.
    pub duration: Option<u64>,
    /// The trimmed body.
    pub note: String,
}

/// The trigger a table gives: its `trigger` value when present and not
/// empty, else `global`.
pub open spec fn table_trigger(m: Map<Seq<char>, Seq<char>>) -> Seq<char> {
    if m.contains_key("trigger"@) && m["trigger"@].len() > 0 {
        m["trigger"@]
    } else {
        "global"@
    }
}

/// The value under `key`, or the empty sequence.
pub open spec fn table_text(m: Map<Seq<char>, Seq<char>>, key: Seq<char>) -> Seq<char> {
    if m.contains_key(key) {
        m[key]
    } else {
        seq![]
    }
}

/// Reads a BGM track's `info.md`: the trigger (`global` by default), the
/// mood (empty by default), the duration when it reads as a number, and the
/// trimmed body as the note.
pub fn read_bgm_info(text: &str) -> (r: BgmInfo)
    ensures
        r.trigger@ == table_trigger(doc_table(text@)),
        r.mood@ == table_text(doc_table(text@), "mood"@),
        r.duration == (if doc_table(text@).contains_key("duration"@) {
            parse_u64(doc_table(text@)["duration"@])
        } else {
            None
        }),
        r.note@ == trim(doc_body(text@)),
{
    let (fm, body) = split_front_matter(text);
    let trigger = match fm.get("trigger") {
        Some(t) => {
            if chars_of(t.as_str()).len() > 0 {
                t.clone()
            } else {
                String::from_str("global")
            }
        },
        None => String::from_str("global"),
    };
    let mood = match fm.get("mood") {
        Some(m) => m.clone(),
        None => String::new(),
    };
    let duration = match fm.get("duration") {
        Some(d) => {
            let dv = chars_of(d.as_str());
            assert(dv@.subrange(0, dv@.len() as int) =~= dv@);
            parse_u64_chars(&dv, 0, dv.len())
        },
        None => None,
    };
    BgmInfo { trigger, mood, duration, note: trimmed(body.as_str()) }
}

// ---------------------------------------------------------------------------
// Casting cards
// ---------------------------------------------------------------------------

/// A casting object's card (`card.md`).
#[derive(Debug, Clone)]
pub struct CastingCard {
    pub name: String,
    pub voice: Option<String>,
    pub portrait: Option<String>,
    pub desc: String,
}

/// The front matter of `card.md`: the name, then the portrait and the voice
/// when present and not blank (trimmed).
pub open spec fn card_entries(c: CastingCard) -> Seq<(Seq<char>, Seq<char>)> {
    seq![("name"@, c.name@)] + opt_entry("portrait"@, c.portrait) + opt_entry("voice"@, c.voice)
}

/// The contents of a casting card: name, voice and portrait in the front
/// matter (the last two only when present, trimmed), the trimmed
/// description as the body.
pub fn card_doc(card: &CastingCard) -> (r: String)
    ensures
        r@ == fm_render(card_entries(*card), trim(card.desc@)),
{
    let mut fm = FrontMatter::new();
    fm.insert(String::from_str("name"), card.name.clone());
    insert_present(&mut fm, "voice", &card.voice);
    insert_present(&mut fm, "portrait", &card.portrait);
    let ghost e = card_entries(*card);
    proof {
        reveal_strlit("name");
        reveal_strlit("voice");
        reveal_strlit("portrait");
        assert(key_lt("name"@, "portrait"@));
        assert(key_lt("portrait"@, "voice"@));
        assert(key_lt("name"@, "voice"@));
        assert(increasing(e));
        reveal_with_fuel(table, 4);
        assert(table(e) =~= table(fm@));
        lemma_table_unique(fm@, e);
    }
    let desc = trimmed(card.desc.as_str());
    render_doc(&fm, desc.as_str())
}

/// An optional text as a card reads it back: trimmed, nothing when blank.
pub open spec fn norm_opt(o: Option<String>) -> Option<Seq<char>> {
    match o {
        Some(v) => if is_blank(v@) {
            None
        } else {
            Some(trim(v@))
        },
        None => None,
    }
}

proof fn lemma_literal_key(k: Seq<char>)
    requires
        k.len() > 0,
        !is_ws(k[0]),
        !is_ws(k.last()),
        forall|i: int| 0 <= i < k.len() ==> k[i] != ':' && k[i] != '\n' && k[i] != '-',
    ensures
        fm_key_ok(k),
        !dashes().is_prefix_of(k),
{
    lemma_trim_fixed(k);
    if dashes().is_prefix_of(k) {
        assert(k.subrange(0, 3)[0] == k[0]);
    }
}

proof fn lemma_trimmed_value(v: Seq<char>)
    requires
        !is_blank(v),
        !trim(v).contains('\n'),
    ensures
        fm_value_ok(trim(v)),
        trim(v).len() > 0,
{
    lemma_trim_trim(v);
}

/// Writing a card and reading it back gives its name, its voice and
/// portrait trimmed (none when blank) and its trimmed description, when
/// the name holds no newline and, unless it is written in quotes, has no
/// surrounding whitespace, and the trimmed voice and portrait hold no newline.
pub proof fn law_card_roundtrip(c: CastingCard, slug: Seq<char>)
    requires
        fm_value_ok(c.name@),
        c.voice is Some ==> !trim(c.voice->0@).contains('\n'),
        c.portrait is Some ==> !trim(c.portrait->0@).contains('\n'),
    ensures
        ({
            let text = fm_render(card_entries(c), trim(c.desc@));
            &&& doc_table(text).contains_key("name"@)
            &&& doc_table(text)["name"@] == c.name@
            &&& table_nonempty(doc_table(text), "voice"@) == norm_opt(c.voice)
            &&& table_nonempty(doc_table(text), "portrait"@) == norm_opt(c.portrait)
            &&& trim(doc_body(text)) == trim(c.desc@)
        }),
{
    let e = card_entries(c);
    let body = trim(c.desc@);
    reveal_strlit("name");
    reveal_strlit("voice");
    reveal_strlit("portrait");
    lemma_literal_key("name"@);
    lemma_literal_key("voice"@);
    lemma_literal_key("portrait"@);
    if c.voice is Some && !is_blank(c.voice->0@) {
        lemma_trimmed_value(c.voice->0@);
    }
    if c.portrait is Some && !is_blank(c.portrait->0@) {
        lemma_trimmed_value(c.portrait->0@);
    }
    lemma_trim_trim(c.desc@);
    assert(forall|i: int| 0 <= i < e.len() ==> fm_key_ok(#[trigger] e[i].0) && fm_value_ok(e[i].1));
    assert(forall|i: int| 1 <= i < e.len() ==> !dashes().is_prefix_of(#[trigger] e[i].0));
    law_front_matter_roundtrip(e, body);
    let text = fm_render(e, body);
    assert(doc_table(text) == table(e));
    assert(doc_body(text) == body);
    assert(key_lt("name"@, "portrait"@));
    assert(key_lt("portrait"@, "voice"@));
    assert(key_lt("name"@, "voice"@));
    assert(increasing(e));
    reveal_with_fuel(table, 4);
    lemma_table_at(e, 0);
    assert(e[0] == ("name"@, c.name@));
}

/// The value under `key` when present and not empty.
pub open spec fn table_nonempty(m: Map<Seq<char>, Seq<char>>, key: Seq<char>) -> Option<Seq<char>> {
    if m.contains_key(key) && m[key].len() > 0 {
        Some(m[key])
    } else {
        None
    }
}

fn nonempty_value(fm: &FrontMatter, key: &str) -> (r: Option<String>)
    ensures
        opt_view(r) == table_nonempty(table(fm@), key@),
{
    match fm.get(key) {
        Some(v) => {
            if chars_of(v.as_str()).len() > 0 {
                Some(v.clone())
            } else {
                None
            }
        },
        None => None,
    }
}

/// Reads a casting card: the name (the slug when the card gives none), the
/// voice and the portrait when given and not empty, the trimmed body as the
/// description.
pub fn card_of(text: &str, slug: &str) -> (r: CastingCard)
    ensures
        r.name@ == (if doc_table(text@).contains_key("name"@) {
            doc_table(text@)["name"@]
        } else {
            slug@
        }),
        opt_view(r.voice) == table_nonempty(doc_table(text@), "voice"@),
        opt_view(r.portrait) == table_nonempty(doc_table(text@), "portrait"@),
        r.desc@ == trim(doc_body(text@)),
{
    let (fm, body) = split_front_matter(text);
    let name = match fm.get("name") {
        Some(n) => n.clone(),
        None => String::from_str(slug),
    };
    CastingCard {
        name,
        voice: nonempty_value(&fm, "voice"),
        portrait: nonempty_value(&fm, "portrait"),
        desc: trimmed(body.as_str()),
    }
}

// ---------------------------------------------------------------------------
// Reading a story
// ---------------------------------------------------------------------------

/// Whether a trimmed line is an act heading or a title (`【…` or `#…`).
pub open spec fn heading(t: Seq<char>) -> bool {
    t.len() > 0 && (t[0] == '【' || t[0] == '#')
}

/// The one-line summary of a story: the first line that is neither blank
/// nor a heading, trimmed and cut to 60 characters; `（无梗概）` when there is none.
pub open spec fn summary_of(ls: Seq<Seq<char>>) -> Seq<char>
    decreases ls.len(),
{
    if ls.len() == 0 {
        "（无梗概）"@
    } else if trim(ls[0]).len() == 0 || heading(trim(ls[0])) {
        summary_of(ls.drop_first())
    } else {
        take_chars(trim(ls[0]), 60)
    }
}

/// The one-line summary of a story's body.
pub fn story_summary(body: &str) -> (r: String)
    ensures
        r@ == summary_of(lines(body@)),
{
    let v = chars_of(body);
    let rs = line_ranges(&v);
    let ghost ls = lines(v@);
    let mut i: usize = 0;
    assert(ls.skip(0) =~= ls);
    while i < rs.len()
        invariant
            i <= rs@.len(),
            ls == lines(v@),
            rs@.len() == ls.len(),
            forall|k: int| 0 <= k < rs@.len() ==> (#[trigger] rs@[k]).0 <= rs@[k].1 <= v@.len(),
            forall|k: int|
                0 <= k < rs@.len() ==> #[trigger] ls[k] == v@.subrange(
                    rs@[k].0 as int,
                    rs@[k].1 as int,
                ),
            summary_of(ls) == summary_of(ls.skip(i as int)),
            v@ == body@,
        decreases rs.len() - i,
    {
        let (p, q) = rs[i];
        assert(ls.skip(i as int).drop_first() =~= ls.skip(i + 1));
        assert(ls.skip(i as int)[0] == ls[i as int]);
        let (a, b) = strip_range(&v, p, q, &CharSet::Space);
        assert(trim(ls[i as int]) == v@.subrange(a as int, b as int));
        if a < b && v[a] != '【' && v[a] != '#' {
            let end = if b - a > 60 {
                a + 60
            } else {
                b
            };
            assert(v@.subrange(a as int, end as int) =~= take_chars(v@.subrange(a as int, b as int), 60));
            return string_of_range(&v, a, end);
        }
        i = i + 1;
    }
    assert(ls.skip(i as int) =~= Seq::<Seq<char>>::empty());
    String::from_str("（无梗概）")
}

/// Whether a line is an act heading: trimmed, it starts with `【` and holds `幕`.
pub open spec fn act_line(l: Seq<char>) -> bool {
    trim(l).len() > 0 && trim(l)[0] == '【' && trim(l).contains('幕')
}

/// The number of act headings among the lines.
pub open spec fn act_count(ls: Seq<Seq<char>>) -> nat
    decreases ls.len(),
{
    if ls.len() == 0 {
        0
    } else {
        act_count(ls.drop_last()) + if act_line(ls.last()) {
            1nat
        } else {
            0nat
        }
    }
}

proof fn lemma_act_count_bound(ls: Seq<Seq<char>>)
    ensures
        act_count(ls) <= ls.len(),
    decreases ls.len(),
{
    if ls.len() > 0 {
        lemma_act_count_bound(ls.drop_last());
    }
}

/// The number of acts of a story: lines that, trimmed, start with `【` and
/// hold `幕`.
pub fn count_acts(body: &str) -> (n: usize)
    ensures
        n == act_count(lines(body@)),
{
    let v = chars_of(body);
    let rs = line_ranges(&v);
    let ghost ls = lines(v@);
    let mut n: usize = 0;
    let mut i: usize = 0;
    assert(ls.take(0) =~= Seq::<Seq<char>>::empty());
    while i < rs.len()
        invariant
            i <= rs@.len(),
            ls == lines(v@),
            rs@.len() == ls.len(),
            forall|k: int| 0 <= k < rs@.len() ==> (#[trigger] rs@[k]).0 <= rs@[k].1 <= v@.len(),
            forall|k: int|
                0 <= k < rs@.len() ==> #[trigger] ls[k] == v@.subrange(
                    rs@[k].0 as int,
                    rs@[k].1 as int,
                ),
            n == act_count(ls.take(i as int)),
            v@ == body@,
        decreases rs.len() - i,
    {
        let (p, q) = rs[i];
        assert(ls.take(i + 1).drop_last() =~= ls.take(i as int));
        assert(ls.take(i + 1).last() == ls[i as int]);
        proof {
            lemma_act_count_bound(ls.take(i as int));
        }
        let (a, b) = strip_range(&v, p, q, &CharSet::Space);
        if a < b && v[a] == '【' && range_has(&v, a, b, '幕') {
            n = n + 1;
        }
        i = i + 1;
    }
    assert(ls.take(rs@.len() as int) =~= ls);
    n
}

// ---------------------------------------------------------------------------
// Compose outputs
// ---------------------------------------------------------------------------

/// The name of the `n`-th candidate for a compose output stamped `ts`:
/// `final-v<ts>.mp4`, then `final-v<ts>-2.mp4`, `final-v<ts>-3.mp4`, ...
pub open spec fn version_name(ts: Seq<char>, n: nat) -> Seq<char> {
    if n <= 1 {
        "final-v"@ + ts + ".mp4"@
    } else {
        "final-v"@ + ts + "-"@ + dec(n) + ".mp4"@
    }
}

/// The `n`-th candidate name of a compose output (the first one not taken
/// in the dist directory is used).
pub fn final_version_name(ts: &str, n: u64) -> (r: String)
    ensures
        r@ == version_name(ts@, n as nat),
{
    let mut r = String::new();
    r.append("final-v");
    r.append(ts);
    if n > 1 {
        r.append("-");
        push_dec(&mut r, n);
    }
    r.append(".mp4");
    r
}

/// The output argument of the second compose pass: with an export
/// directory set (not blank), the absolute path in the dist directory;
/// otherwise the name under `hub/dist/`, relative to the project directory.
pub open spec fn output_arg(p: FilmProject, dist_root: Seq<char>, final_name: Seq<char>) -> Seq<char> {
    if p.export_dir is Some && !is_blank(p.export_dir->0@) {
        dist_root + "/"@ + final_name
    } else {
        "hub/dist/"@ + final_name
    }
}

/// The output argument of the second compose pass (see [`output_arg`]).
pub fn compose_output_arg(project: &FilmProject, final_name: &str) -> (r: String)
    ensures
        r@ == output_arg(*project, dist_root_of(*project), final_name@),
{
    let mut r = String::new();
    let exported = match &project.export_dir {
        Some(e) => !blank(e.as_str()),
        None => false,
    };
    if exported {
        let d = dist_root(project);
        r.append(d.as_str());
        r.append("/");
    } else {
        r.append("hub/dist/");
    }
    r.append(final_name);
    r
}

/// The message of a compose refused for missing shot videos: the missing
/// files, and the ones waiting in the cache to be committed when there are any.
pub open spec fn missing_message(missing: Seq<Seq<char>>, pending: Seq<Seq<char>>) -> Seq<char> {
    "缺少镜头视频 "@ + join(missing, ", "@) + "（先完成各镜头 video 阶段并 commit）"@ + if pending.len() == 0 {
        seq![]
    } else {
        "（hub/cache 有试生成未 commit："@ + join(pending, ", "@) + " —— 先 POST cache/<file>/commit 转正）"@
    }
}

/// The message of a compose refused for missing shot videos.
pub fn missing_videos_message(missing: &Vec<String>, pending: &Vec<String>) -> (r: String)
    ensures
        r@ == missing_message(strs(missing@), strs(pending@)),
{
    let mut r = String::new();
    r.append("缺少镜头视频 ");
    let m = join_strings(missing, ", ");
    r.append(m.as_str());
    r.append("（先完成各镜头 video 阶段并 commit）");
    if pending.len() > 0 {
        r.append("（hub/cache 有试生成未 commit：");
        let p = join_strings(pending, ", ");
        r.append(p.as_str());
        r.append(" —— 先 POST cache/<file>/commit 转正）");
    } else {
        assert(r@ + Seq::<char>::empty() =~= r@);
    }
    r
}

// ---------------------------------------------------------------------------
// The hub tree
// ---------------------------------------------------------------------------

/// The six casting classes, each a directory under `casting/`.
pub open spec fn casting_types() -> Seq<Seq<char>> {
    seq!["characters"@, "props"@, "pets"@, "formations"@, "actions"@, "scenes"@]
}

/// Whether a path segment names a casting class.
pub fn is_casting_type(t: &str) -> (b: bool)
    ensures
        b == casting_types().contains(t@),
{
    let b = str_eq(t, "characters") || str_eq(t, "props") || str_eq(t, "pets") || str_eq(
        t,
        "formations",
    ) || str_eq(t, "actions") || str_eq(t, "scenes");
    if b {
        assert(casting_types().contains(t@)) by {
            if t@ == "characters"@ {
                assert(casting_types()[0] == t@);
            } else if t@ == "props"@ {
                assert(casting_types()[1] == t@);
            } else if t@ == "pets"@ {
                assert(casting_types()[2] == t@);
            } else if t@ == "formations"@ {
                assert(casting_types()[3] == t@);
            } else if t@ == "actions"@ {
                assert(casting_types()[4] == t@);
            } else {
                assert(casting_types()[5] == t@);
            }
        }
    }
    b
}

/// The message of a request naming an unknown casting class.
pub open spec fn unknown_type_message(t: Seq<char>) -> Seq<char> {
    "未知定妆类别: "@ + t
        + "（[\"characters\", \"props\", \"pets\", \"formations\", \"actions\", \"scenes\"]）"@
}

/// The message of a request naming an unknown casting class.
pub fn unknown_casting_type_message(t: &str) -> (r: String)
    ensures
        r@ == unknown_type_message(t@),
{
    let mut r = String::new();
    r.append("未知定妆类别: ");
    r.append(t);
    r.append("（[\"characters\", \"props\", \"pets\", \"formations\", \"actions\", \"scenes\"]）");
    r
}

/// The directories of a hub tree rooted at `root`.
pub open spec fn hub_dir_list(root: Seq<char>) -> Seq<Seq<char>> {
    seq![
        root + "/story"@,
        root + "/storyboard"@,
        root + "/cache"@,
        root + "/dist"@,
        root + "/audio/bgm"@,
        root + "/casting/characters"@,
        root + "/casting/props"@,
        root + "/casting/pets"@,
        root + "/casting/formations"@,
        root + "/casting/actions"@,
        root + "/casting/scenes"@,
    ]
}

fn push_dir(v: &mut Vec<String>, root: &str, rest: &str)
    ensures
        strs(final(v)@) == strs(old(v)@).push(root@ + rest@),
{
    let mut d = String::from_str(root);
    d.append(rest);
    let ghost before = v@;
    v.push(d);
    assert(strs(v@) =~= strs(before).push(root@ + rest@));
}

/// The directories of a hub tree: story, storyboard, cache, dist, the BGM
/// tracks, and one per casting class.
pub fn hub_dirs(root: &str) -> (r: Vec<String>)
    ensures
        strs(r@) == hub_dir_list(root@),
{
    let mut v: Vec<String> = Vec::new();
    push_dir(&mut v, root, "/story");
    push_dir(&mut v, root, "/storyboard");
    push_dir(&mut v, root, "/cache");
    push_dir(&mut v, root, "/dist");
    push_dir(&mut v, root, "/audio/bgm");
    push_dir(&mut v, root, "/casting/characters");
    push_dir(&mut v, root, "/casting/props");
    push_dir(&mut v, root, "/casting/pets");
    push_dir(&mut v, root, "/casting/formations");
    push_dir(&mut v, root, "/casting/actions");
    push_dir(&mut v, root, "/casting/scenes");
    assert(strs(v@) =~= hub_dir_list(root@));
    v
}

/// Whether the hub's `storyboard.json` must be rewritten from the
/// project's `script.json`: the script exists and is newer, or the
/// storyboard is missing. Times are modification times; `None` is a
/// missing file.
pub fn storyboard_stale(script_mtime: Option<u128>, storyboard_mtime: Option<u128>) -> (b: bool)
    ensures
        b == match (script_mtime, storyboard_mtime) {
            (Some(s), Some(t)) => s > t,
            (Some(_), None) => true,
            _ => false,
        },
{
    match (script_mtime, storyboard_mtime) {
        (Some(s), Some(t)) => s > t,
        (Some(_), None) => true,
        _ => false,
    }
}

/// The card of a character moved over from the character table: name,
/// voice when present (trimmed), `views/front.<ext>` as portrait when its
/// image was copied, and the description as it is.
pub open spec fn legacy_card_entries(c: FilmCharacter, portrait_ext: Option<Seq<char>>) -> Seq<
    (Seq<char>, Seq<char>),
> {
    seq![("name"@, c.name@)] + (match portrait_ext {
        Some(e) => seq![("portrait"@, "views/front."@ + e)],
        None => seq![],
    }) + opt_entry("voice"@, c.voice)
}

/// The `card.md` of a character moved over from the character table.
pub fn legacy_card_doc(c: &FilmCharacter, portrait_ext: Option<&str>) -> (r: String)
    ensures
        r@ == fm_render(legacy_card_entries(*c, opt_str_view(portrait_ext)), c.description@),
{
    let mut fm = FrontMatter::new();
    fm.insert(String::from_str("name"), c.name.clone());
    insert_present(&mut fm, "voice", &c.voice);
    if let Some(e) = portrait_ext {
        let mut p = String::new();
        p.append("views/front.");
        p.append(e);
        fm.insert(String::from_str("portrait"), p);
    }
    let ghost e = legacy_card_entries(*c, opt_str_view(portrait_ext));
    proof {
        reveal_strlit("name");
        reveal_strlit("voice");
        reveal_strlit("portrait");
        assert(key_lt("name"@, "portrait"@));
        assert(key_lt("portrait"@, "voice"@));
        assert(key_lt("name"@, "voice"@));
        assert(increasing(e));
        reveal_with_fuel(table, 4);
        assert(table(e) =~= table(fm@));
        lemma_table_unique(fm@, e);
    }
    render_doc(&fm, c.description.as_str())
}

// ---------------------------------------------------------------------------
// Story import
// ---------------------------------------------------------------------------

/// Where an imported source text is stored: `story/source-<slug>.txt`, the
/// slug made from the file name without its last extension (`source` when
/// the slug is empty).
pub open spec fn source_rel(filename: Seq<char>) -> Seq<char> {
    let stem = match rfind_char(filename, '.') {
        Some(k) => filename.take(k),
        None => filename,
    };
    "story/source-"@ + (if slug(stem).len() == 0 {
        "source"@
    } else {
        slug(stem)
    }) + ".txt"@
}

/// Whether an import's file name is acceptable: not blank, and, trimmed,
/// without `/` or `\`.
pub open spec fn import_name_ok(filename: Seq<char>) -> bool {
    !is_blank(filename) && !trim(filename).contains('/') && !trim(filename).contains('\\')
}

/// The hub path of an imported source text, from the file name given with
/// it; the message of the 400 answer when the name is refused.
pub fn story_source_path(filename: &str) -> (r: Result<String, String>)
    ensures
        match r {
            Ok(p) => import_name_ok(filename@) && p@ == source_rel(trim(filename@)),
            Err(m) => !import_name_ok(filename@) && m@ == "filename 不可为空且不可含路径分隔符"@,
        },
{
    let f = trimmed(filename);
    let v = chars_of(f.as_str());
    if v.len() == 0 || range_has(&v, 0, v.len(), '/') || range_has(&v, 0, v.len(), '\\') {
        assert(v@.subrange(0, v@.len() as int) =~= v@);
        return Err(String::from_str("filename 不可为空且不可含路径分隔符"));
    }
    assert(v@.subrange(0, v@.len() as int) =~= v@);
    assert(v@.take(v@.len() as int) =~= v@);
    let stem = match rfind_char_in(&v, v.len(), '.') {
        Some(k) => string_of_range(&v, 0, k),
        None => string_of_range(&v, 0, v.len()),
    };
    assert(stem@ == match rfind_char(v@, '.') {
        Some(k) => v@.take(k),
        None => v@,
    }) by {
        assert(v@.take(v@.len() as int) =~= v@);
    }
    let s = slugify(stem.as_str());
    let mut p = String::new();
    p.append("story/source-");
    if chars_of(s.as_str()).len() == 0 {
        p.append("source");
    } else {
        p.append(s.as_str());
    }
    p.append(".txt");
    Ok(p)
}

// ---------------------------------------------------------------------------
// The story stage
// ---------------------------------------------------------------------------

/// The stem of a file name: what precedes its last `.` (the whole name
/// without one).
pub open spec fn stem_of(name: Seq<char>) -> Seq<char> {
    match rfind_char(name, '.') {
        Some(k) => name.take(k),
        None => name,
    }
}

fn stem_string(name: &str) -> (r: String)
    ensures
        r@ == stem_of(name@),
{
    let v = chars_of(name);
    assert(v@.take(v@.len() as int) =~= v@);
    assert(v@.subrange(0, v@.len() as int) =~= v@);
    match rfind_char_in(&v, v.len(), '.') {
        Some(k) => {
            assert(v@.subrange(0, k as int) =~= v@.take(k as int));
            string_of_range(&v, 0, k)
        },
        None => string_of_range(&v, 0, v.len()),
    }
}

/// Where the story stage looks for a source text named by the request
/// (trimmed): the name itself under `story/`, then the stored
/// `story/source-<slug>.txt` of its stem.
pub open spec fn source_rels(want: Seq<char>) -> (Seq<char>, Seq<char>) {
    ("story/"@ + want, "story/source-"@ + slug(stem_of(want)) + ".txt"@)
}

/// The two hub paths where a requested source text may be stored (see
/// [`source_rels`]); the first that is a file is read.
pub fn story_source_candidates(want: &str) -> (r: (String, String))
    ensures
        r.0@ == source_rels(want@).0,
        r.1@ == source_rels(want@).1,
{
    let mut direct = String::new();
    direct.append("story/");
    direct.append(want);
    let stem = stem_string(want);
    let s = slugify(stem.as_str());
    let mut by_slug = String::new();
    by_slug.append("story/source-");
    by_slug.append(s.as_str());
    by_slug.append(".txt");
    (direct, by_slug)
}

/// The front matter of `story.md`: the stored source file when the story
/// was adapted from one, the one-line summary and the length in characters.
pub open spec fn story_entries(body: Seq<char>, source: Option<Seq<char>>) -> Seq<(Seq<char>, Seq<char>)> {
    (match source {
        Some(sf) => if is_blank(sf) {
            seq![]
        } else {
            seq![("source"@, "source-"@ + slug(stem_of(trim(sf))) + ".txt"@)]
        },
        None => seq![],
    }) + seq![("summary"@, summary_of(lines(body))), ("words"@, dec(body.len()))]
}

/// The contents of `story.md` for a generated story body.
pub fn story_doc(body: &str, source_file: Option<&str>) -> (r: String)
    ensures
        r@ == fm_render(story_entries(body@, opt_str_view(source_file)), body@),
{
    let mut fm = FrontMatter::new();
    let n = chars_of(body).len();
    let mut words = String::new();
    push_dec(&mut words, n as u64);
    fm.insert(String::from_str("words"), words);
    fm.insert(String::from_str("summary"), story_summary(body));
    let mut has_source = false;
    if let Some(sf) = source_file {
        if !blank(sf) {
            let t = trimmed(sf);
            let stem = stem_string(t.as_str());
            let sl = slugify(stem.as_str());
            let mut v = String::new();
            v.append("source-");
            v.append(sl.as_str());
            v.append(".txt");
            fm.insert(String::from_str("source"), v);
            has_source = true;
        }
    }
    let ghost e = story_entries(body@, opt_str_view(source_file));
    proof {
        reveal_strlit("source");
        reveal_strlit("summary");
        reveal_strlit("words");
        reveal_with_fuel(key_lt, 3);
        assert(key_lt("source"@, "summary"@));
        assert(key_lt("summary"@, "words"@));
        assert(key_lt("source"@, "words"@));
        assert(increasing(e));
        reveal_with_fuel(table, 4);
        assert(table(e) =~= table(fm@));
        lemma_table_unique(fm@, e);
    }
    render_doc(&fm, body)
}

/// The story body of a `story.md`: the body after the front matter,
/// trimmed; none when nothing is left.
pub open spec fn story_body_of(text: Seq<char>) -> Option<Seq<char>> {
    if trim(doc_body(text)).len() == 0 {
        None
    } else {
        Some(trim(doc_body(text)))
    }
}

/// The story body of a `story.md` (see [`story_body_of`]).
pub fn story_body(text: &str) -> (r: Option<String>)
    ensures
        match r {
            Some(b) => story_body_of(text@) == Some(b@),
            None => story_body_of(text@) is None,
        },
{
    let (_, body) = split_front_matter(text);
    let t = trimmed(body.as_str());
    if chars_of(t.as_str()).len() == 0 {
        None
    } else {
        Some(t)
    }
}

/// What a story generation writes from the model's answer.
pub struct StoryWrite {
    /// The contents of `story.md`.
    pub doc: String,
    /// The README progress line.
    pub progress: String,
    /// The task's closing line.
    pub done_line: String,
}

/// What a story generation does with the model's answer, `story.md` being
/// stored at `path`: a blank answer ends the task with an error; otherwise
/// the trimmed answer is the story body, written with its front matter
/// (see [`story_doc`]), the README says how many characters and acts it
/// has, and the task ends naming the file.
pub fn story_outcome(answer: &str, source_file: Option<&str>, path: &str) -> (r: Result<StoryWrite, String>)
    ensures
        match r {
            Ok(w) => {
                &&& !is_blank(answer@)
                &&& w.doc@ == fm_render(story_entries(trim(answer@), opt_str_view(source_file)), trim(answer@))
                &&& w.progress@ == "剧情正稿已生成（"@ + dec(trim(answer@).len()) + " 字 / "@ + dec(
                    act_count(lines(trim(answer@))) as nat,
                ) + " 幕）"@
                &&& w.done_line@ == "剧情正稿已存 "@ + path@
            },
            Err(m) => is_blank(answer@) && m@ == "LLM 返回空剧情正文"@,
        },
{
    let body = trimmed(answer);
    let n = chars_of(body.as_str()).len();
    if n == 0 {
        return Err(String::from_str("LLM 返回空剧情正文"));
    }
    let doc = story_doc(body.as_str(), source_file);
    let acts = count_acts(body.as_str());
    let mut progress = String::from_str("剧情正稿已生成（");
    push_dec(&mut progress, n as u64);
    progress.append(" 字 / ");
    push_dec(&mut progress, acts as u64);
    progress.append(" 幕）");
    let mut done_line = String::from_str("剧情正稿已存 ");
    done_line.append(path);
    Ok(StoryWrite { doc, progress, done_line })
}

} // verus!
