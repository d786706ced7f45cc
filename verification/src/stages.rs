//! What the per-shot stages decide before they call a model: the shot a
//! request names, the key frame prompt, the spoken text, the music prompt
//! and the first frame of a video.
use vstd::prelude::*;
use crate::model::{opt_view, FilmCharacter, FilmProject, ScriptShot, ShotModel, shot_views};
use crate::prompts::{build_storyboard_retry_prompt, storyboard_retry_prompt};
use crate::script::{build_character_prompt_block, char_parts, find_in_roster, lemma_roster_find, roster_find};
use crate::hub::{compose_output_arg, missing_message, missing_videos_message, output_arg, scene_tag};
use crate::media::{
    build_concat_args, build_concat_list, build_mix_args, build_srt, compose_dims, concat_args, concat_list,
    missing_shot_videos, missing_videos, mix_args, opt_str_view, plan_voices, ratio_dims, shot_video_file,
    srt_from, total_ms, total_seconds, voice_plan, voice_views,
};
use crate::paths::{dist_root, dist_root_of};
use crate::text::{
    all_digits, blank, chars_of, dec, is_blank, join, occurs_at, pattern, push_dec, push_range,
    rfind_char, rfind_char_in, split_once, split_once_strings, str_eq, string_of_range, strs, trim, trimmed,
};

verus! {

/// The index of the first shot numbered `n`.
pub open spec fn shot_index(shots: Seq<ShotModel>, n: u32) -> Option<int>
    decreases shots.len(),
{
    if shots.len() == 0 {
        None
    } else if shots[0].shot == n {
        Some(0)
    } else {
        match shot_index(shots.drop_first(), n) {
            Some(i) => Some(i + 1),
            None => None,
        }
    }
}

/// The message of a request naming a shot the storyboard does not have.
pub open spec fn missing_shot_message(n: u32, count: nat) -> Seq<char> {
    "镜头 "@ + dec(n as nat) + " 不在分镜中（共 "@ + dec(count) + " 个镜头）"@
}

/// The index of the first shot numbered `shot_no`, or the message naming
/// the missing shot and the number of shots.
pub fn find_shot(shots: &Vec<ScriptShot>, shot_no: u32) -> (r: Result<usize, String>)
    ensures
        match r {
            Ok(i) => shot_index(shot_views(shots@), shot_no) == Some(i as int),
            Err(m) => shot_index(shot_views(shots@), shot_no) is None && m@ == missing_shot_message(
                shot_no,
                shots@.len(),
            ),
        },
{
    let ghost sv = shot_views(shots@);
    let mut i: usize = 0;
    assert(sv.skip(0) =~= sv);
    while i < shots.len()
        invariant
            i <= shots@.len(),
            sv == shot_views(shots@),
            sv.len() == shots@.len(),
            shot_index(sv, shot_no) == match shot_index(sv.skip(i as int), shot_no) {
                Some(k) => Some(k + i),
                None => None::<int>,
            },
        decreases shots.len() - i,
    {
        assert(sv.skip(i as int).drop_first() =~= sv.skip(i + 1));
        assert(sv.skip(i as int)[0] == sv[i as int]);
        if shots[i].shot == shot_no {
            return Ok(i);
        }
        i = i + 1;
    }
    assert(sv.skip(i as int) =~= Seq::<ShotModel>::empty());
    let mut m = String::new();
    m.append("镜头 ");
    push_dec(&mut m, shot_no as u64);
    m.append(" 不在分镜中（共 ");
    push_dec(&mut m, shots.len() as u64);
    m.append(" 个镜头）");
    Err(m)
}

/// The key frame prompt of a shot: the character block first when the shot
/// binds characters of the roster, then the shot's image prompt, then the
/// project's style hint when it is not blank.
pub open spec fn keyframe_prompt_of(shot: ShotModel, roster: Seq<FilmCharacter>, style: Option<String>) -> Seq<
    char,
> {
    let parts = char_parts(shot.characters, roster);
    let base = if parts.len() > 0 {
        join(parts, "；"@) + "。"@ + shot.image_prompt
    } else {
        shot.image_prompt
    };
    match style {
        Some(s) => if is_blank(s@) {
            base
        } else {
            base + "，"@ + trim(s@)
        },
        None => base,
    }
}

/// The key frame prompt of a shot (see [`keyframe_prompt_of`]).
pub fn keyframe_prompt(shot: &ScriptShot, roster: &[FilmCharacter], style_hint: &Option<String>) -> (r: String)
    ensures
        r@ == keyframe_prompt_of(shot@, roster@, *style_hint),
{
    let mut p = String::new();
    match build_character_prompt_block(shot.characters.as_slice(), roster) {
        Some(block) => {
            p.append(block.as_str());
            p.append("。");
            p.append(shot.image_prompt.as_str());
        },
        None => {
            p.append(shot.image_prompt.as_str());
        },
    }
    if let Some(s) = style_hint {
        if !blank(s.as_str()) {
            p.append("，");
            let t = trimmed(s.as_str());
            p.append(t.as_str());
        }
    }
    p
}

/// The text a shot's speech is made from: the request's text when given and
/// not blank (trimmed), the shot's line otherwise; a shot without a line
/// and no text given is refused.
pub open spec fn speech_text(shot_no: u32, line: Seq<char>, text: Option<String>) -> Result<Seq<char>, Seq<char>> {
    let t = match text {
        Some(x) => if is_blank(x@) {
            line
        } else {
            trim(x@)
        },
        None => line,
    };
    if t.len() == 0 {
        Err("镜头 "@ + dec(shot_no as nat) + " 无台词（script.line 为空），请显式传 text"@)
    } else {
        Ok(t)
    }
}

/// The text a shot's speech is made from (see [`speech_text`]).
pub fn tts_text(shot: &ScriptShot, text: &Option<String>) -> (r: Result<String, String>)
    ensures
        match (r, speech_text(shot.shot, shot.line@, *text)) {
            (Ok(a), Ok(b)) => a@ == b,
            (Err(m), Err(w)) => m@ == w,
            _ => false,
        },
{
    let t = match text {
        Some(x) => {
            if blank(x.as_str()) {
                shot.line.clone()
            } else {
                trimmed(x.as_str())
            }
        },
        None => shot.line.clone(),
    };
    if crate::text::chars_of(t.as_str()).len() == 0 {
        let mut m = String::new();
        m.append("镜头 ");
        push_dec(&mut m, shot.shot as u64);
        m.append(" 无台词（script.line 为空），请显式传 text");
        return Err(m);
    }
    Ok(t)
}

/// The style of the project music: the trimmed style hint, `电影感` when
/// there is none or it is blank.
pub open spec fn music_style(p: FilmProject) -> Seq<char> {
    match p.style_hint {
        Some(s) => if is_blank(s@) {
            "电影感"@
        } else {
            trim(s@)
        },
        None => "电影感"@,
    }
}

/// The prompt of the project music: the request's prompt when given and not
/// blank (trimmed); otherwise one built from the style hint (`电影感` when
/// blank) and the idea.
pub open spec fn music_prompt_of(p: FilmProject, prompt: Option<String>) -> Seq<char> {
    let built = "为影片生成背景音乐，风格："@ + music_style(p) + "，适配创意："@ + p.idea@;
    match prompt {
        Some(x) => if is_blank(x@) {
            built
        } else {
            trim(x@)
        },
        None => built,
    }
}

/// The prompt of the project music (see [`music_prompt_of`]).
pub fn music_prompt(project: &FilmProject, prompt: &Option<String>) -> (r: String)
    ensures
        r@ == music_prompt_of(*project, *prompt),
{
    if let Some(x) = prompt {
        if !blank(x.as_str()) {
            return trimmed(x.as_str());
        }
    }
    let mut r = String::new();
    r.append("为影片生成背景音乐，风格：");
    match &project.style_hint {
        Some(s) => {
            if blank(s.as_str()) {
                r.append("电影感");
            } else {
                let t = trimmed(s.as_str());
                r.append(t.as_str());
            }
        },
        None => r.append("电影感"),
    }
    r.append("，适配创意：");
    r.append(project.idea.as_str());
    r
}

/// `t` with every leading `scene:` taken off.
pub open spec fn strip_scene_tags(t: Seq<char>) -> Seq<char>
    decreases t.len(),
{
    if scene_tag().is_prefix_of(t) {
        strip_scene_tags(t.skip(6))
    } else {
        t
    }
}

/// The prompt of one BGM track: the request's prompt when given and not
/// blank (trimmed); otherwise one built from the track's mood (the style of
/// the project when the mood is empty), the scene it plays in (none for a
/// global track) and the idea.
pub open spec fn track_prompt_of(p: FilmProject, prompt: Option<String>, trigger: Seq<char>, mood: Seq<char>) -> Seq<
    char,
> {
    let scene = if trigger == "global"@ {
        Seq::<char>::empty()
    } else {
        "，触发场景："@ + strip_scene_tags(trigger)
    };
    let built = "为影片生成背景音乐，风格："@ + (if mood.len() == 0 {
        music_style(p)
    } else {
        mood
    }) + scene + "，适配创意："@ + p.idea@;
    match prompt {
        Some(x) => if is_blank(x@) {
            built
        } else {
            trim(x@)
        },
        None => built,
    }
}

/// The prompt of one BGM track (see [`track_prompt_of`]).
pub fn track_music_prompt(project: &FilmProject, prompt: &Option<String>, trigger: &str, mood: &str) -> (r: String)
    ensures
        r@ == track_prompt_of(*project, *prompt, trigger@, mood@),
{
    if let Some(x) = prompt {
        if !blank(x.as_str()) {
            return trimmed(x.as_str());
        }
    }
    let mut r = String::new();
    r.append("为影片生成背景音乐，风格：");
    if chars_of(mood).len() == 0 {
        match &project.style_hint {
            Some(s) => {
                if blank(s.as_str()) {
                    r.append("电影感");
                } else {
                    let t = trimmed(s.as_str());
                    r.append(t.as_str());
                }
            },
            None => r.append("电影感"),
        }
    } else {
        r.append(mood);
    }
    let tv = chars_of(trigger);
    let global = pattern("global");
    proof {
        reveal_strlit("global");
    }
    if !crate::text::chars_eq(&tv, &global) {
        r.append("，触发场景：");
        let tag = pattern("scene:");
        proof {
            reveal_strlit("scene:");
            assert(tag@ =~= scene_tag());
        }
        let mut i: usize = 0;
        assert(tv@.skip(0) =~= tv@);
        while occurs_at(&tv, i, &tag)
            invariant
                i <= tv.len(),
                tag@ == scene_tag(),
                strip_scene_tags(tv@) == strip_scene_tags(tv@.skip(i as int)),
            decreases tv.len() - i,
        {
            assert(tv@.skip(i as int).skip(6) =~= tv@.skip(i + 6));
            i = i + 6;
        }
        assert(tv@.subrange(i as int, tv@.len() as int) =~= tv@.skip(i as int));
        push_range(&mut r, &tv, i, tv.len());
    }
    r.append("，适配创意：");
    r.append(project.idea.as_str());
    r
}

/// Whether a cache file may be committed: `shot-<n>.png`, `shot-<n>.mp4` or
/// `line-<n>.mp3`, `<n>` being ASCII digits (the stem split at its first
/// `-`, the extension after the last `.`).
pub open spec fn committable(file: Seq<char>) -> bool {
    match rfind_char(file, '.') {
        Some(k) => {
            let stem = file.take(k);
            let ext = file.skip(k + 1);
            match split_once(stem, '-') {
                Some((prefix, num)) => num.len() > 0 && all_digits(num) && ((prefix == "shot"@ && (ext
                    == "png"@ || ext == "mp4"@)) || (prefix == "line"@ && ext == "mp3"@)),
                None => false,
            }
        },
        None => false,
    }
}

fn digits_only(s: &str) -> (b: bool)
    ensures
        b == (s@.len() > 0 && all_digits(s@)),
{
    let v = chars_of(s);
    if v.len() == 0 {
        return false;
    }
    let mut i: usize = 0;
    while i < v.len()
        invariant
            v@ == s@,
            i <= v.len(),
            forall|j: int| 0 <= j < i ==> '0' <= #[trigger] v@[j] && v@[j] <= '9',
        decreases v.len() - i,
    {
        if !('0' <= v[i] && v[i] <= '9') {
            return false;
        }
        i = i + 1;
    }
    true
}

/// Checks the name of a cache file to commit (see [`committable`]); the
/// message of the 400 answer when it is refused.
pub fn check_cache_commit(file: &str) -> (r: Result<(), String>)
    ensures
        match r {
            Ok(()) => committable(file@),
            Err(m) => !committable(file@) && m@ == "cache 产物名须为 shot-<n>.png / shot-<n>.mp4 / line-<n>.mp3（当前 "@
                + file@ + "）"@,
        },
{
    proof {
        reveal_strlit("shot");
        reveal_strlit("line");
        reveal_strlit("png");
        reveal_strlit("mp4");
        reveal_strlit("mp3");
    }
    let v = chars_of(file);
    let ok = match rfind_char_in(&v, v.len(), '.') {
        Some(k) => {
            assert(v@.take(v@.len() as int) =~= v@);
            let stem = string_of_range(&v, 0, k);
            let ext = string_of_range(&v, k + 1, v.len());
            assert(v@.subrange(0, k as int) =~= v@.take(k as int));
            assert(v@.subrange(k + 1, v@.len() as int) =~= v@.skip(k + 1));
            match split_once_strings(stem.as_str(), '-') {
                Some((prefix, num)) => {
                    digits_only(num.as_str()) && ((str_eq(prefix.as_str(), "shot") && (str_eq(ext.as_str(), "png")
                        || str_eq(ext.as_str(), "mp4"))) || (str_eq(prefix.as_str(), "line") && str_eq(
                        ext.as_str(),
                        "mp3",
                    )))
                },
                None => false,
            }
        },
        None => {
            assert(v@.take(v@.len() as int) =~= v@);
            false
        },
    };
    if ok {
        Ok(())
    } else {
        let mut m = String::new();
        m.append("cache 产物名须为 shot-<n>.png / shot-<n>.mp4 / line-<n>.mp3（当前 ");
        m.append(file);
        m.append("）");
        Err(m)
    }
}

// ---------------------------------------------------------------------------
// Composition
// ---------------------------------------------------------------------------

/// What is on disk when the film is composed: for each shot of the
/// storyboard, whether its video is committed, whether a trial video waits
/// in the cache, and whether its line is recorded.
#[derive(Debug, Clone)]
pub struct ComposeInput {
    pub shots: Vec<ScriptShot>,
    pub has_video: Vec<bool>,
    pub in_cache: Vec<bool>,
    pub has_line: Vec<bool>,
}

/// What composing the film does: the concat list and the first pass
/// (uniform size and rate), the subtitles (none when empty), the voice
/// inputs on the timeline, the second pass (voices, BGM, subtitles), where
/// the film lands, and its length.
#[derive(Debug, Clone)]
pub struct ComposePlan {
    pub concat_list: String,
    pub pass1: Vec<String>,
    pub subtitles: String,
    pub voices: Vec<(String, u64)>,
    pub pass2: Vec<String>,
    pub final_path: String,
    pub seconds: u64,
}

/// The trial videos waiting in the cache for shots whose video is missing.
pub open spec fn pending_videos(shots: Seq<ScriptShot>, has_video: Seq<bool>, in_cache: Seq<bool>) -> Seq<Seq<char>>
    decreases shots.len(),
{
    if shots.len() == 0 {
        seq![]
    } else {
        let rest = pending_videos(shots.drop_first(), has_video.drop_first(), in_cache.drop_first());
        if !has_video[0] && in_cache[0] {
            seq![shot_video_file(shots[0].shot as nat)] + rest
        } else {
            rest
        }
    }
}

fn pending_shot_videos(shots: &Vec<ScriptShot>, has_video: &Vec<bool>, in_cache: &Vec<bool>) -> (r: Vec<String>)
    requires
        shots@.len() == has_video@.len(),
        shots@.len() == in_cache@.len(),
    ensures
        strs(r@) == pending_videos(shots@, has_video@, in_cache@),
{
    let mut missing_here: Vec<bool> = Vec::new();
    let mut i: usize = 0;
    while i < shots.len()
        invariant
            i <= shots@.len(),
            shots@.len() == has_video@.len(),
            shots@.len() == in_cache@.len(),
            missing_here@.len() == i,
            forall|k: int| 0 <= k < i ==> #[trigger] missing_here@[k] == !(!has_video@[k] && in_cache@[k]),
        decreases shots.len() - i,
    {
        missing_here.push(!(!has_video[i] && in_cache[i]));
        i = i + 1;
    }
    let r = missing_shot_videos(shots, &missing_here);
    proof {
        lemma_pending_as_missing(shots@, has_video@, in_cache@, missing_here@);
    }
    r
}

proof fn lemma_voice_plan_len(shots: Seq<ScriptShot>, has_line: Seq<bool>, t: nat)
    requires
        shots.len() == has_line.len(),
    ensures
        voice_plan(shots, has_line, t).len() <= shots.len(),
    decreases shots.len(),
{
    if shots.len() > 0 {
        lemma_voice_plan_len(shots.drop_first(), has_line.drop_first(), t + crate::media::shot_ms(shots[0]));
    }
}

proof fn lemma_pending_as_missing(shots: Seq<ScriptShot>, has_video: Seq<bool>, in_cache: Seq<bool>, m: Seq<bool>)
    requires
        shots.len() == has_video.len(),
        shots.len() == in_cache.len(),
        shots.len() == m.len(),
        forall|k: int| 0 <= k < shots.len() ==> #[trigger] m[k] == !(!has_video[k] && in_cache[k]),
    ensures
        missing_videos(shots, m) == pending_videos(shots, has_video, in_cache),
    decreases shots.len(),
{
    if shots.len() > 0 {
        lemma_pending_as_missing(shots.drop_first(), has_video.drop_first(), in_cache.drop_first(), m.drop_first());
    }
}

/// Plans the composition of the film: refused, naming the missing shot
/// videos (and the trial ones waiting in the cache), while any shot video is
/// missing; otherwise the steps, sized by the project's ratio (1272x720
/// for an unknown one), the film landing under `final_name` in the project's
/// release directory.
pub fn plan_compose(project: &FilmProject, input: &ComposeInput, bgm_input: Option<&str>, final_name: &str) -> (r:
    Result<ComposePlan, String>)
    requires
        input.shots@.len() == input.has_video@.len(),
        input.shots@.len() == input.in_cache@.len(),
        input.shots@.len() == input.has_line@.len(),
        total_ms(input.shots@) <= u64::MAX,
        input.shots@.len() < u32::MAX,
    ensures
        match r {
            Err(m) => missing_videos(input.shots@, input.has_video@).len() > 0 && m@ == missing_message(
                missing_videos(input.shots@, input.has_video@),
                pending_videos(input.shots@, input.has_video@, input.in_cache@),
            ),
            Ok(plan) => {
                let (w, h) = match compose_dims(project.ratio@) {
                    Some(d) => d,
                    None => (1272u32, 720u32),
                };
                &&& missing_videos(input.shots@, input.has_video@).len() == 0
                &&& plan.concat_list@ == concat_list(input.shots@.len())
                &&& strs(plan.pass1@) == concat_args(w as nat, h as nat, "compose-video.mp4"@)
                &&& plan.subtitles@ == srt_from(input.shots@, 0, 1)
                &&& voice_views(plan.voices@) == voice_plan(input.shots@, input.has_line@, 0)
                &&& strs(plan.pass2@) == mix_args(
                    plan.voices@,
                    opt_str_view(bgm_input),
                    plan.subtitles@.len() > 0,
                    output_arg(*project, dist_root_of(*project), final_name@),
                )
                &&& plan.final_path@ == dist_root_of(*project) + "/"@ + final_name@
                &&& plan.seconds * 1000 == total_ms(input.shots@)
            },
        },
{
    let missing = missing_shot_videos(&input.shots, &input.has_video);
    if missing.len() > 0 {
        let pending = pending_shot_videos(&input.shots, &input.has_video, &input.in_cache);
        return Err(missing_videos_message(&missing, &pending));
    }
    let (w, h) = match ratio_dims(project.ratio.as_str()) {
        Some(d) => d,
        None => (1272, 720),
    };
    proof {
        reveal_strlit("compose-video.mp4");
    }
    let list = build_concat_list(input.shots.len());
    let pass1 = build_concat_args(w, h, "compose-video.mp4");
    let srt = build_srt(&input.shots);
    let voices = plan_voices(&input.shots, &input.has_line);
    proof {
        lemma_voice_plan_len(input.shots@, input.has_line@, 0);
        assert(voice_views(voices@).len() == voices@.len());
    }
    let out = compose_output_arg(project, final_name);
    let has_srt = chars_of(srt.as_str()).len() > 0;
    let pass2 = build_mix_args(voices.as_slice(), bgm_input, has_srt, out.as_str());
    let mut final_path = dist_root(project);
    final_path.append("/");
    final_path.append(final_name);
    let seconds = total_seconds(&input.shots);
    Ok(ComposePlan { concat_list: list, pass1, subtitles: srt, voices, pass2, final_path, seconds })
}

// ---------------------------------------------------------------------------
// Reference portraits
// ---------------------------------------------------------------------------

/// Where the portrait of the roster character `c` lies: its stored path
/// (trimmed, when not blank) under the project directory.
pub open spec fn portrait_path(dir: Seq<char>, c: FilmCharacter) -> Option<Seq<char>> {
    match c.portrait_ref {
        Some(p) => if is_blank(p@) {
            None
        } else {
            Some(crate::text::rstrip(dir, crate::text::CharSet::One('/')) + "/"@ + trim(p@))
        },
        None => None,
    }
}

/// The portraits a generation is given as references: for each name the
/// shot binds that the roster knows, in the shot's order, the name and the
/// portrait's path (none when the character has no portrait).
pub open spec fn portrait_sources_of(dir: Seq<char>, names: Seq<Seq<char>>, roster: Seq<FilmCharacter>) -> Seq<
    (Seq<char>, Option<Seq<char>>),
>
    decreases names.len(),
{
    if names.len() == 0 {
        seq![]
    } else {
        let rest = portrait_sources_of(dir, names.drop_last(), roster);
        match roster_find(roster, names.last()) {
            Some(k) => rest.push((names.last(), portrait_path(dir, roster[k]))),
            None => rest,
        }
    }
}

/// The values of the portrait sources given back.
pub open spec fn source_values(v: Seq<(String, Option<String>)>) -> Seq<(Seq<char>, Option<Seq<char>>)> {
    v.map_values(
        |p: (String, Option<String>)|
            (
                p.0@,
                match p.1 {
                    Some(x) => Some(x@),
                    None => None,
                },
            ),
    )
}

/// The portraits a generation is given as references (see
/// [`portrait_sources_of`]); the caller reads and encodes each file.
pub fn portrait_sources(project: &FilmProject, names: &Vec<String>, roster: &[FilmCharacter]) -> (r: Vec<(String, Option<String>)>)
    ensures
        source_values(r@) == portrait_sources_of(project.dir@, strs(names@), roster@),
{
    let dv = chars_of(project.dir.as_str());
    let e = crate::text::rstrip_index(&dv, 0, dv.len(), &crate::text::CharSet::One('/'));
    assert(dv@.subrange(0, dv@.len() as int) =~= dv@);
    let base = crate::text::string_of_range(&dv, 0, e);
    let mut out: Vec<(String, Option<String>)> = Vec::new();
    let mut i: usize = 0;
    assert(strs(names@).take(0) =~= Seq::<Seq<char>>::empty());
    assert(source_values(out@) =~= Seq::<(Seq<char>, Option<Seq<char>>)>::empty());
    while i < names.len()
        invariant
            i <= names@.len(),
            base@ == crate::text::rstrip(project.dir@, crate::text::CharSet::One('/')),
            source_values(out@) == portrait_sources_of(project.dir@, strs(names@).take(i as int), roster@),
        decreases names.len() - i,
    {
        assert(strs(names@).take(i + 1).drop_last() =~= strs(names@).take(i as int));
        assert(strs(names@).take(i + 1).last() == names@[i as int]@);
        match find_in_roster(roster, names[i].as_str()) {
            Some(k) => {
                proof {
                    lemma_roster_find(roster@, names@[i as int]@);
                }
                let path = match &roster[k].portrait_ref {
                    Some(p) => if blank(p.as_str()) {
                        None
                    } else {
                        let mut x = base.clone();
                        x.append("/");
                        let t = trimmed(p.as_str());
                        x.append(t.as_str());
                        Some(x)
                    },
                    None => None,
                };
                let ghost before = out@;
                out.push((names[i].clone(), path));
                assert(source_values(out@) =~= source_values(before).push(
                    (names@[i as int]@, portrait_path(project.dir@, roster@[k as int])),
                ));
            },
            None => {},
        }
        i = i + 1;
    }
    assert(strs(names@).take(names@.len() as int) =~= strs(names@));
    out
}

/// The first frame of a shot's video: none when the video is made from text
/// alone; otherwise the committed key frame, unless only a trial key frame
/// waits in the cache.
pub fn first_frame(image_first: bool, committed: &str, committed_exists: bool, trial: &str, trial_exists: bool) -> (r: Option<String>)
    ensures
        match r {
            Some(p) => image_first && p@ == if !committed_exists && trial_exists {
                trial@
            } else {
                committed@
            },
            None => !image_first,
        },
{
    if image_first {
        if !committed_exists && trial_exists {
            Some(String::from_str(trial))
        } else {
            Some(String::from_str(committed))
        }
    } else {
        None
    }
}

// ---------------------------------------------------------------------------
// Storyboard generation
// ---------------------------------------------------------------------------

/// Which answer a storyboard generation waits for.
#[derive(Debug, Clone, Copy, PartialEq, Eq, Structural)]
pub enum StoryboardPhase {
    /// The answer to the storyboard prompt.
    First,
    /// The answer to the one retry after an unparsable first answer.
    Retry,
}

/// A storyboard generation in progress.
pub struct StoryboardState {
    pub phase: StoryboardPhase,
    /// The story the storyboard follows; `None` falls back to the idea.
    pub story: Option<String>,
    pub idea: String,
    /// `<hub>/storyboard/storyboard.json`, the storyboard itself.
    pub storyboard_path: String,
    /// `<project dir>/script.json`, its mirror for the canvas and later stages.
    pub script_path: String,
    /// Whether the task reports the storyboard as its output (else the mirror).
    pub output_storyboard: bool,
}

/// What came back from the model.
pub enum StoryboardEvent {
    /// An answer: its shots, or why it did not parse as a storyboard.
    Answer(Result<Vec<ScriptShot>, String>),
    /// The call itself failed.
    CallFailed(String),
}

/// What the stage does next.
pub enum StoryboardAction {
    /// Ask again with this prompt (same system prompt).
    Retry { prompt: String },
    /// End the task with this error.
    Fail { message: String },
    /// Write the storyboard and its script mirror, then end the task with
    /// `output` as its output.
    Write { shots: Vec<ScriptShot>, storyboard_path: String, script_path: String, output: String },
}

/// A storyboard generation waiting for its first answer; the storyboard
/// lives at `<root>/storyboard/storyboard.json`, its mirror at
/// `<dir>/script.json`.
pub fn storyboard_start(root: &str, dir: &str, story: Option<String>, idea: String, output_storyboard: bool) -> (r:
    StoryboardState)
    ensures
        r.phase == StoryboardPhase::First,
        r.story == story,
        r.idea == idea,
        r.storyboard_path@ == root@ + "/storyboard/storyboard.json"@,
        r.script_path@ == dir@ + "/script.json"@,
        r.output_storyboard == output_storyboard,
{
    let mut sb = String::from_str(root);
    sb.append("/storyboard/storyboard.json");
    let mut sc = String::from_str(dir);
    sc.append("/script.json");
    StoryboardState { phase: StoryboardPhase::First, story, idea, storyboard_path: sb, script_path: sc, output_storyboard }
}

/// The story of a state as a string slice.
fn story_str(o: &Option<String>) -> (r: Option<&str>)
    ensures
        opt_str_view(r) == opt_view(*o),
{
    match o {
        Some(s) => Some(s.as_str()),
        None => None,
    }
}

/// One step of a storyboard generation. A parsed answer is written, in
/// either phase. The first unparsable answer is retried once with the retry
/// prompt; a second one ends the task with the parse message. A failed call
/// ends the task with its error (prefixed `重试调用失败: ` for the retry).
/// The state moves to [`StoryboardPhase::Retry`] only when a retry is asked.
pub fn storyboard_step(s: StoryboardState, event: StoryboardEvent) -> (r: (StoryboardState, StoryboardAction))
    ensures
        r.0.story == s.story,
        r.0.idea == s.idea,
        r.0.storyboard_path == s.storyboard_path,
        r.0.script_path == s.script_path,
        r.0.output_storyboard == s.output_storyboard,
        r.0.phase == (if s.phase == StoryboardPhase::First && event matches StoryboardEvent::Answer(Err(_)) {
            StoryboardPhase::Retry
        } else {
            s.phase
        }),
        match event {
            StoryboardEvent::Answer(Ok(shots)) => r.1 matches StoryboardAction::Write {
                shots: w,
                storyboard_path: sb,
                script_path: sc,
                output: out,
            } && w == shots && sb@ == s.storyboard_path@ && sc@ == s.script_path@ && out@ == (if s.output_storyboard {
                s.storyboard_path@
            } else {
                s.script_path@
            }),
            StoryboardEvent::Answer(Err(e)) => if s.phase == StoryboardPhase::First {
                r.1 matches StoryboardAction::Retry { prompt } && prompt@ == storyboard_retry_prompt(
                    opt_view(s.story),
                    s.idea@,
                )
            } else {
                r.1 matches StoryboardAction::Fail { message } && message@ == "LLM 输出两次均无法解析为分镜 JSON："@
                    + e@
            },
            StoryboardEvent::CallFailed(e) => if s.phase == StoryboardPhase::First {
                r.1 matches StoryboardAction::Fail { message } && message@ == e@
            } else {
                r.1 matches StoryboardAction::Fail { message } && message@ == "重试调用失败: "@ + e@
            },
        },
{
    let mut s = s;
    match event {
        StoryboardEvent::Answer(Ok(shots)) => {
            let sb = s.storyboard_path.clone();
            let sc = s.script_path.clone();
            let out = if s.output_storyboard {
                s.storyboard_path.clone()
            } else {
                s.script_path.clone()
            };
            (s, StoryboardAction::Write { shots, storyboard_path: sb, script_path: sc, output: out })
        },
        StoryboardEvent::Answer(Err(e)) => {
            match s.phase {
                StoryboardPhase::First => {
                    let prompt = build_storyboard_retry_prompt(story_str(&s.story), s.idea.as_str());
                    s.phase = StoryboardPhase::Retry;
                    (s, StoryboardAction::Retry { prompt })
                },
                StoryboardPhase::Retry => {
                    let mut m = String::from_str("LLM 输出两次均无法解析为分镜 JSON：");
                    m.append(e.as_str());
                    (s, StoryboardAction::Fail { message: m })
                },
            }
        },
        StoryboardEvent::CallFailed(e) => {
            match s.phase {
                StoryboardPhase::First => (s, StoryboardAction::Fail { message: e }),
                StoryboardPhase::Retry => {
                    let mut m = String::from_str("重试调用失败: ");
                    m.append(e.as_str());
                    (s, StoryboardAction::Fail { message: m })
                },
            }
        },
    }
}


} // verus!
