//! The checks a request passes before any work starts: new projects and
//! characters, project and character updates, and the shot stage requests.
use vstd::prelude::*;
use crate::media::{compose_dims, ratio_dims};
use crate::model::{opt_view, FilmCharacter};
use crate::text::{
    blank, chars_eq, chars_of, dec, is_blank, lemma_parse_dec, occurs_at, parse_u64,
    parse_u64_chars, push_dec, rstrip, rstrip_index, split_char, split_strings, str_eq,
    string_of_range, strip_range, strs, trim, trimmed, CharSet,
};

verus! {

/// The message of a ratio outside the six presets.
pub open spec fn ratio_error(ratio: Seq<char>) -> Seq<char> {
    "ratio 必须是 16:9 / 9:16 / 1:1 / 2.39:1 / 1.85:1 / 4:3（当前 "@ + ratio + "）"@
}

fn ratio_message(ratio: &str) -> (m: String)
    ensures
        m@ == ratio_error(ratio@),
{
    let mut m = String::new();
    m.append("ratio 必须是 16:9 / 9:16 / 1:1 / 2.39:1 / 1.85:1 / 4:3（当前 ");
    m.append(ratio);
    m.append("）");
    m
}

/// The first problem of a new project: a blank title, a blank idea, or a
/// ratio outside the presets (checked as given).
pub open spec fn new_project_problem(title: Seq<char>, idea: Seq<char>, ratio: Seq<char>) -> Option<
    Seq<char>,
> {
    if is_blank(title) {
        Some("title 不可为空"@)
    } else if is_blank(idea) {
        Some("idea 不可为空"@)
    } else if compose_dims(ratio) is None {
        Some(ratio_error(ratio))
    } else {
        None
    }
}

/// Checks a project creation request; the error is the message of the
/// 400 answer.
pub fn check_new_project(title: &str, idea: &str, ratio: &str) -> (r: Result<(), String>)
    ensures
        match r {
            Ok(()) => new_project_problem(title@, idea@, ratio@) is None,
            Err(m) => new_project_problem(title@, idea@, ratio@) == Some(m@),
        },
{
    if blank(title) {
        return Err(String::from_str("title 不可为空"));
    }
    if blank(idea) {
        return Err(String::from_str("idea 不可为空"));
    }
    if ratio_dims(ratio).is_none() {
        return Err(ratio_message(ratio));
    }
    Ok(())
}

/// An optional field trimmed, dropped when blank.
pub open spec fn norm_field(o: Option<String>) -> Option<Seq<char>> {
    match o {
        Some(s) => if is_blank(s@) {
            None
        } else {
            Some(trim(s@))
        },
        None => None,
    }
}

/// An optional field trimmed, dropped when blank.
pub fn normalized(o: &Option<String>) -> (r: Option<String>)
    ensures
        opt_view(r) == norm_field(*o),
{
    match o {
        Some(s) => {
            if blank(s.as_str()) {
                None
            } else {
                Some(trimmed(s.as_str()))
            }
        },
        None => None,
    }
}

/// The fields a project update sets; `None` leaves a field as it is.
#[derive(Debug, Clone)]
pub struct ProjectUpdate {
    pub title: Option<String>,
    pub idea: Option<String>,
    pub ratio: Option<String>,
    /// An empty string clears the hint.
    pub style_hint: Option<String>,
}

/// The style hint an update writes: empty when asked to clear it, the
/// trimmed hint when one is given (possibly empty), nothing otherwise.
pub open spec fn style_update(style_hint: Option<String>, clear: Option<bool>) -> Option<Seq<char>> {
    if clear == Some(true) {
        Some(seq![])
    } else {
        match style_hint {
            Some(s) => Some(trim(s@)),
            None => None,
        }
    }
}

/// Normalizes a project update: title, idea and ratio trimmed (blank ones
/// left out), the ratio checked against the presets, the style hint as
/// [`style_update`] says. The error is the message of the 400 answer.
pub fn normalize_project_update(
    title: &Option<String>,
    idea: &Option<String>,
    ratio: &Option<String>,
    style_hint: &Option<String>,
    clear_style_hint: Option<bool>,
) -> (r: Result<ProjectUpdate, String>)
    ensures
        match r {
            Ok(u) => {
                &&& opt_view(u.title) == norm_field(*title)
                &&& opt_view(u.idea) == norm_field(*idea)
                &&& opt_view(u.ratio) == norm_field(*ratio)
                &&& (norm_field(*ratio) matches Some(x) ==> compose_dims(x) is Some)
                &&& opt_view(u.style_hint) == style_update(*style_hint, clear_style_hint)
            },
            Err(m) => norm_field(*ratio) matches Some(x) && compose_dims(x) is None && m@
                == ratio_error(x),
        },
{
    let t = normalized(title);
    let i = normalized(idea);
    let r = normalized(ratio);
    if let Some(x) = &r {
        if ratio_dims(x.as_str()).is_none() {
            return Err(ratio_message(x.as_str()));
        }
    }
    let clear = match clear_style_hint {
        Some(b) => b,
        None => false,
    };
    let s = if clear {
        Some(String::new())
    } else {
        match style_hint {
            Some(h) => Some(trimmed(h.as_str())),
            None => None,
        }
    };
    Ok(ProjectUpdate { title: t, idea: i, ratio: r, style_hint: s })
}

/// The first problem of a new character: a blank name or a blank
/// description.
pub open spec fn new_character_problem(name: Seq<char>, description: Seq<char>) -> Option<Seq<char>> {
    if is_blank(name) {
        Some("name 不可为空"@)
    } else if is_blank(description) {
        Some("description 不可为空"@)
    } else {
        None
    }
}

/// Checks a character creation request; the error is the message of the
/// 400 answer.
pub fn check_new_character(name: &str, description: &str) -> (r: Result<(), String>)
    ensures
        match r {
            Ok(()) => new_character_problem(name@, description@) is None,
            Err(m) => new_character_problem(name@, description@) == Some(m@),
        },
{
    if blank(name) {
        return Err(String::from_str("name 不可为空"));
    }
    if blank(description) {
        return Err(String::from_str("description 不可为空"));
    }
    Ok(())
}

/// The voice a character update writes: `None` leaves it as it is,
/// `Some(None)` clears it (a blank voice), `Some(Some(v))` sets the trimmed voice.
pub open spec fn voice_update(voice: Option<String>) -> Option<Option<Seq<char>>> {
    match voice {
        Some(v) => if is_blank(v@) {
            Some(None)
        } else {
            Some(Some(trim(v@)))
        },
        None => None,
    }
}

/// The voice field of a character update (see [`voice_update`]).
pub fn character_voice_update(voice: &Option<String>) -> (r: Option<Option<String>>)
    ensures
        match r {
            Some(x) => voice_update(*voice) == Some(opt_view(x)),
            None => voice_update(*voice) is None,
        },
{
    match voice {
        Some(v) => {
            if blank(v.as_str()) {
                Some(None)
            } else {
                Some(Some(trimmed(v.as_str())))
            }
        },
        None => None,
    }
}

/// A per-shot stage.
#[derive(Debug, Clone, Copy, PartialEq, Eq, Structural)]
pub enum ShotStage {
    Image,
    Video,
    Tts,
}

/// `str::parse::<u32>`.
pub open spec fn parse_u32(s: Seq<char>) -> Option<u32> {
    match parse_u64(s) {
        Some(v) => if v <= u32::MAX {
            Some(v as u32)
        } else {
            None
        },
        None => None,
    }
}

/// The stage a path segment names.
pub open spec fn stage_named(s: Seq<char>) -> Option<ShotStage> {
    if s == "image"@ {
        Some(ShotStage::Image)
    } else if s == "video"@ {
        Some(ShotStage::Video)
    } else if s == "tts"@ {
        Some(ShotStage::Tts)
    } else {
        None
    }
}

/// The answer to a shot stage request's path: the shot number and the stage,
/// or the status and message of the refusal. A number that does not parse
/// is a 400, shot 0 is a 400, an unknown stage is a 404, in that order.
pub open spec fn shot_request(n: Seq<char>, stage: Seq<char>) -> Result<(u32, ShotStage), (u16, Seq<char>)> {
    match parse_u32(n) {
        None => Err((400u16, "镜头号须为正整数（当前 "@ + n + "）"@)),
        Some(k) => if k == 0 {
            Err((400u16, "镜头号从 1 起（与 script.shot 一致）"@))
        } else {
            match stage_named(stage) {
                Some(st) => Ok((k, st)),
                None => Err((404u16, "未知镜头阶段: "@ + stage + "（image/video/tts）"@)),
            }
        },
    }
}

/// Checks the path of a shot stage request (`shots/:n/:stage`).
pub fn parse_shot_request(n: &str, stage: &str) -> (r: Result<(u32, ShotStage), (u16, String)>)
    ensures
        match (r, shot_request(n@, stage@)) {
            (Ok(a), Ok(b)) => a == b,
            (Err((c, m)), Err((d, w))) => c == d && m@ == w,
            _ => false,
        },
{
    let v = chars_of(n);
    assert(v@.subrange(0, v@.len() as int) =~= v@);
    let k = match parse_u64_chars(&v, 0, v.len()) {
        Some(x) => {
            if x > 4294967295u64 {
                let mut m = String::new();
                m.append("镜头号须为正整数（当前 ");
                m.append(n);
                m.append("）");
                return Err((400, m));
            }
            x as u32
        },
        None => {
            let mut m = String::new();
            m.append("镜头号须为正整数（当前 ");
            m.append(n);
            m.append("）");
            return Err((400, m));
        },
    };
    if k == 0 {
        return Err((400, String::from_str("镜头号从 1 起（与 script.shot 一致）")));
    }
    if str_eq(stage, "image") {
        Ok((k, ShotStage::Image))
    } else if str_eq(stage, "video") {
        Ok((k, ShotStage::Video))
    } else if str_eq(stage, "tts") {
        Ok((k, ShotStage::Tts))
    } else {
        let mut m = String::new();
        m.append("未知镜头阶段: ");
        m.append(stage);
        m.append("（image/video/tts）");
        Err((404, m))
    }
}

// ---------------------------------------------------------------------------
// Export directory
// ---------------------------------------------------------------------------

/// The components of a path after its root, as `Path::components` gives
/// them: the `/`-separated parts, empty parts and `.` parts dropped.
pub open spec fn path_parts(p: Seq<char>) -> Seq<Seq<char>> {
    split_char(p, '/').filter(|x: Seq<char>| x.len() > 0 && x != seq!['.'])
}

/// `Path::new(path).starts_with(base)` for an absolute `path`: an empty
/// base is a prefix of everything; otherwise the base must be absolute and
/// its components a prefix of the path's.
pub open spec fn under_base(path: Seq<char>, base: Seq<char>) -> bool {
    base.len() == 0 || (base[0] == '/' && path_parts(base).is_prefix_of(path_parts(path)))
}

/// An export directory as it is stored: trimmed, trailing `/` removed.
pub open spec fn export_norm(dir: Seq<char>) -> Seq<char> {
    rstrip(trim(dir), CharSet::One('/'))
}

/// The shape checks on an export directory: not empty once normalized,
/// absolute, and under the export base when one is set (not blank). Gives
/// the normalized directory, or the message of the 400 answer. Whether the
/// parent exists and is writable is for the file system to say.
pub open spec fn export_dir_verdict(dir: Seq<char>, base: Option<Seq<char>>) -> Result<Seq<char>, Seq<char>> {
    let norm = export_norm(dir);
    if norm.len() == 0 {
        Err("export_dir 不可为空串路径"@)
    } else if norm[0] != '/' {
        Err("export_dir 须为绝对路径（当前 "@ + dir + "；~ 不会自动展开），如 /tank/os-data/exports/my-film"@)
    } else if base is Some && !is_blank(base->0) && !under_base(
        norm,
        rstrip(trim(base->0), CharSet::One('/')),
    ) {
        Err("export_dir 须位于 NEXOS_FILM_EXPORT_BASE（"@ + trim(base->0) + "）之下（当前 "@ + norm + "）"@)
    } else {
        Ok(norm)
    }
}

fn path_parts_of(p: &str) -> (r: Vec<String>)
    ensures
        strs(r@) == path_parts(p@),
{
    let parts = split_strings(p, '/');
    let ghost all = strs(parts@);
    let mut out: Vec<String> = Vec::new();
    let dot: Vec<char> = vec!['.'];
    assert(dot@ =~= seq!['.']);
    let mut i: usize = 0;
    assert(all.take(0) =~= Seq::<Seq<char>>::empty());
    while i < parts.len()
        invariant
            i <= parts@.len(),
            all == strs(parts@),
            all == split_char(p@, '/'),
            dot@ == seq!['.'],
            strs(out@) == all.take(i as int).filter(|x: Seq<char>| x.len() > 0 && x != seq!['.']),
        decreases parts.len() - i,
    {
        assert(all.take(i + 1).drop_last() =~= all.take(i as int));
        reveal_with_fuel(Seq::filter, 1);
        let c = chars_of(parts[i].as_str());
        if c.len() > 0 && !chars_eq(&c, &dot) {
            crate::text::push_str(&mut out, parts[i].as_str());
        }
        assert(strs(out@) =~= all.take(i + 1).filter(|x: Seq<char>| x.len() > 0 && x != seq!['.']));
        i = i + 1;
    }
    assert(all.take(parts@.len() as int) =~= all);
    out
}

fn parts_prefix(a: &Vec<String>, b: &Vec<String>) -> (r: bool)
    ensures
        r == strs(a@).is_prefix_of(strs(b@)),
{
    if a.len() > b.len() {
        return false;
    }
    let mut i: usize = 0;
    while i < a.len()
        invariant
            i <= a@.len() <= b@.len(),
            forall|k: int| 0 <= k < i ==> strs(a@)[k] == strs(b@)[k],
        decreases a.len() - i,
    {
        let x = chars_of(a[i].as_str());
        let y = chars_of(b[i].as_str());
        if !chars_eq(&x, &y) {
            assert(strs(b@).subrange(0, a@.len() as int)[i as int] == strs(b@)[i as int]);
            return false;
        }
        i = i + 1;
    }
    assert(strs(a@) =~= strs(b@).subrange(0, a@.len() as int));
    true
}

fn norm_of(s: &str) -> (r: String)
    ensures
        r@ == rstrip(trim(s@), CharSet::One('/')),
{
    let v = chars_of(s);
    assert(v@.subrange(0, v@.len() as int) =~= v@);
    let (a, b) = strip_range(&v, 0, v.len(), &CharSet::Space);
    let b2 = rstrip_index(&v, a, b, &CharSet::One('/'));
    string_of_range(&v, a, b2)
}

/// The shape checks on an export directory (see [`export_dir_verdict`]).
pub fn export_dir_shape(dir: &str, base: Option<&str>) -> (r: Result<String, String>)
    ensures
        match (r, export_dir_verdict(dir@, crate::media::opt_str_view(base))) {
            (Ok(a), Ok(b)) => a@ == b,
            (Err(m), Err(w)) => m@ == w,
            _ => false,
        },
{
    let norm = norm_of(dir);
    let nv = chars_of(norm.as_str());
    if nv.len() == 0 {
        return Err(String::from_str("export_dir 不可为空串路径"));
    }
    if nv[0] != '/' {
        let mut m = String::new();
        m.append("export_dir 须为绝对路径（当前 ");
        m.append(dir);
        m.append("；~ 不会自动展开），如 /tank/os-data/exports/my-film");
        return Err(m);
    }
    if let Some(b) = base {
        if !blank(b) {
            let bn = norm_of(b);
            let bv = chars_of(bn.as_str());
            let inside = if bv.len() == 0 {
                true
            } else if bv[0] != '/' {
                false
            } else {
                parts_prefix(&path_parts_of(bn.as_str()), &path_parts_of(norm.as_str()))
            };
            if !inside {
                let bt = trimmed(b);
                let mut m = String::new();
                m.append("export_dir 须位于 NEXOS_FILM_EXPORT_BASE（");
                m.append(bt.as_str());
                m.append("）之下（当前 ");
                m.append(norm.as_str());
                m.append("）");
                return Err(m);
            }
        }
    }
    Ok(norm)
}

// ---------------------------------------------------------------------------
// Project ids
// ---------------------------------------------------------------------------

/// `film-`, the prefix of a project id.
pub open spec fn film_prefix() -> Seq<char> {
    seq!['f', 'i', 'l', 'm', '-']
}

/// The sequence number of a project id `film-<n>`.
pub open spec fn seq_of(id: Seq<char>) -> Option<u64> {
    if film_prefix().is_prefix_of(id) {
        parse_u64(id.skip(5))
    } else {
        None
    }
}

/// The sequence number of a project id `film-<n>`, when it has one.
pub fn project_seq(id: &str) -> (r: Option<u64>)
    ensures
        r == seq_of(id@),
{
    let v = chars_of(id);
    let pre: Vec<char> = vec!['f', 'i', 'l', 'm', '-'];
    assert(pre@ =~= film_prefix());
    assert(v@.skip(0) =~= v@);
    if occurs_at(&v, 0, &pre) {
        assert(v@.skip(5) =~= v@.subrange(5, v@.len() as int));
        parse_u64_chars(&v, 5, v.len())
    } else {
        None
    }
}

/// The largest sequence number among the ids (0 when none has one).
pub open spec fn max_seq(ids: Seq<Seq<char>>) -> u64
    decreases ids.len(),
{
    if ids.len() == 0 {
        0
    } else {
        let m = max_seq(ids.drop_last());
        match seq_of(ids.last()) {
            Some(n) => if n > m {
                n
            } else {
                m
            },
            None => m,
        }
    }
}

/// The largest project sequence number in use, where numbering resumes.
pub fn max_project_seq(ids: &Vec<String>) -> (r: u64)
    ensures
        r == max_seq(strs(ids@)),
{
    let mut m: u64 = 0;
    let mut i: usize = 0;
    assert(strs(ids@).take(0) =~= Seq::<Seq<char>>::empty());
    while i < ids.len()
        invariant
            i <= ids@.len(),
            m == max_seq(strs(ids@).take(i as int)),
        decreases ids.len() - i,
    {
        assert(strs(ids@).take(i + 1).drop_last() =~= strs(ids@).take(i as int));
        match project_seq(ids[i].as_str()) {
            Some(n) => {
                if n > m {
                    m = n;
                }
            },
            None => {},
        }
        i = i + 1;
    }
    assert(strs(ids@).take(ids@.len() as int) =~= strs(ids@));
    m
}

/// The id of project number `n`.
pub open spec fn project_id_of(n: u64) -> Seq<char> {
    film_prefix() + dec(n as nat)
}

/// The id of project number `n` and its directory under `root` (trailing
/// `/` of the root removed).
pub fn project_candidate(root: &str, n: u64) -> (r: (String, String))
    ensures
        r.0@ == project_id_of(n),
        r.1@ == rstrip(root@, CharSet::One('/')) + seq!['/'] + project_id_of(n),
{
    let mut id = String::from_str("film-");
    proof {
        reveal_strlit("film-");
    }
    assert("film-"@ =~= film_prefix());
    push_dec(&mut id, n);
    let v = chars_of(root);
    let e = rstrip_index(&v, 0, v.len(), &CharSet::One('/'));
    assert(v@.subrange(0, v@.len() as int) =~= v@);
    let mut dir = string_of_range(&v, 0, e);
    crate::text::push_char(&mut dir, '/');
    dir.append(id.as_str());
    (id, dir)
}

/// Numbering resumes above every number in use, so a new project id is
/// never one of the ids already stored.
pub proof fn law_new_project_id_is_fresh(ids: Seq<Seq<char>>, n: u64)
    requires
        n > max_seq(ids),
    ensures
        !ids.contains(project_id_of(n)),
    decreases ids.len(),
{
    if ids.len() > 0 {
        let d = ids.drop_last();
        assert(n > max_seq(d));
        law_new_project_id_is_fresh(d, n);
        let id = project_id_of(n);
        lemma_parse_dec(n);
        assert(id.skip(5) =~= dec(n as nat));
        assert(film_prefix().is_prefix_of(id)) by {
            assert(id.subrange(0, 5) =~= film_prefix());
        }
        assert(seq_of(id) == Some(n));
        if ids.contains(id) {
            let i = choose|i: int| 0 <= i < ids.len() && ids[i] == id;
            if i < ids.len() - 1 {
                assert(d[i] == id);
            }
        }
    }
}

/// Where project numbering starts: above every number in use, and never
/// below 100.
pub fn counter_seed(ids: &Vec<String>) -> (r: u64)
    ensures
        r == if max_seq(strs(ids@)) > 100 {
            max_seq(strs(ids@))
        } else {
            100
        },
{
    let m = max_project_seq(ids);
    if m > 100 {
        m
    } else {
        100
    }
}

/// How many candidate ids a new project tries before giving up.
pub const ID_ATTEMPTS: u32 = 10000;

/// What becomes of a candidate project id.
#[derive(Debug, Clone, Copy, PartialEq, Eq, Structural)]
pub enum IdVerdict {
    /// The id is free: use it.
    Accept,
    /// A row holds it or its directory is not empty: try the next number.
    TryNext,
    /// The last attempt failed too: give up.
    GiveUp,
}

/// The verdict on the candidate of attempt `attempt` (from 0): accepted
/// when no row holds it and its directory is missing or empty; else the
/// next number is tried, until [`ID_ATTEMPTS`] candidates have failed.
pub open spec fn id_verdict_of(attempt: u32, row_taken: bool, dir_occupied: bool) -> IdVerdict {
    if !row_taken && !dir_occupied {
        IdVerdict::Accept
    } else if attempt + 1 >= ID_ATTEMPTS {
        IdVerdict::GiveUp
    } else {
        IdVerdict::TryNext
    }
}

/// The verdict on a candidate project id (see [`id_verdict_of`]).
pub fn id_verdict(attempt: u32, row_taken: bool, dir_occupied: bool) -> (r: IdVerdict)
    ensures
        r == id_verdict_of(attempt, row_taken, dir_occupied),
{
    if !row_taken && !dir_occupied {
        IdVerdict::Accept
    } else if attempt >= ID_ATTEMPTS - 1 {
        IdVerdict::GiveUp
    } else {
        IdVerdict::TryNext
    }
}

/// The message when every candidate id failed.
pub fn ids_exhausted_message() -> (r: String)
    ensures
        r@ == "连续 1 万次 id 候选均冲突（DB 行或 film-* 目录异常，请排查残留）"@,
{
    String::from_str("连续 1 万次 id 候选均冲突（DB 行或 film-* 目录异常，请排查残留）")
}

/// The directory of project number `n` under `root`.
pub open spec fn project_dir_of(root: Seq<char>, n: u64) -> Seq<char> {
    rstrip(root, CharSet::One('/')) + seq!['/'] + project_id_of(n)
}

/// The id of project number `n`, for any natural number.
pub open spec fn id_of_nat(n: nat) -> Seq<char> {
    film_prefix() + dec(n)
}

/// Whether project number `n` is free (see [`id_free`]), for any number.
pub open spec fn free_nat(taken: Seq<Seq<char>>, occupied: Seq<Seq<char>>, n: nat) -> bool {
    !taken.contains(id_of_nat(n)) && !occupied.contains(id_of_nat(n))
}

/// The number an allocation from counter `c` takes, trying at most `k`
/// numbers after it: the first free one, `None` when all `k` are taken.
pub open spec fn alloc_from(taken: Seq<Seq<char>>, occupied: Seq<Seq<char>>, c: nat, k: nat) -> Option<nat>
    decreases k,
{
    if k == 0 {
        None
    } else if free_nat(taken, occupied, c + 1) {
        Some(c + 1)
    } else {
        alloc_from(taken, occupied, c + 1, (k - 1) as nat)
    }
}

/// Whether project number `n` is free: no row holds its id and no
/// directory with entries bears its name.
pub open spec fn id_free(taken: Seq<Seq<char>>, occupied: Seq<Seq<char>>, n: u64) -> bool {
    !taken.contains(project_id_of(n)) && !occupied.contains(project_id_of(n))
}

fn holds(v: &Vec<String>, s: &String) -> (b: bool)
    ensures
        b == strs(v@).contains(s@),
{
    let mut i: usize = 0;
    while i < v.len()
        invariant
            i <= v.len(),
            forall|k: int| 0 <= k < i ==> strs(v@)[k] != s@,
        decreases v.len() - i,
    {
        if str_eq(v[i].as_str(), s.as_str()) {
            assert(strs(v@)[i as int] == s@);
            return true;
        }
        i = i + 1;
    }
    false
}

/// Allocates a new project: the counter moves to the first number after it
/// whose id is free (see [`id_free`]; `taken` are the ids the project rows
/// hold, `occupied` the names of the non-empty directories under `root`),
/// and that id is returned with its directory. After [`ID_ATTEMPTS`] numbers
/// that are all taken the allocation fails, the counter having moved past
/// them.
pub fn allocate_project_id(
    root: &str,
    counter: &mut u64,
    taken: &Vec<String>,
    occupied: &Vec<String>,
) -> (r: Result<(String, String), String>)
    requires
        *old(counter) + ID_ATTEMPTS <= u64::MAX,
    ensures
        *old(counter) < *final(counter) <= *old(counter) + ID_ATTEMPTS,
        alloc_from(strs(taken@), strs(occupied@), *old(counter) as nat, ID_ATTEMPTS as nat) == (if r is Ok {
            Some(*final(counter) as nat)
        } else {
            None::<nat>
        }),
        forall|m: u64| *old(counter) < m < *final(counter) ==> !id_free(strs(taken@), strs(occupied@), m),
        match r {
            Ok((id, dir)) => {
                &&& id_free(strs(taken@), strs(occupied@), *final(counter))
                &&& id@ == project_id_of(*final(counter))
                &&& dir@ == project_dir_of(root@, *final(counter))
            },
            Err(e) => {
                &&& *final(counter) == *old(counter) + ID_ATTEMPTS
                &&& !id_free(strs(taken@), strs(occupied@), *final(counter))
                &&& e@ == "连续 1 万次 id 候选均冲突（DB 行或 film-* 目录异常，请排查残留）"@
            },
        },
{
    let ghost c0 = *counter;
    let mut attempt: u32 = 0;
    loop
        invariant
            attempt < ID_ATTEMPTS,
            c0 == *old(counter),
            *counter == c0 + attempt,
            alloc_from(strs(taken@), strs(occupied@), c0 as nat, ID_ATTEMPTS as nat) == alloc_from(
                strs(taken@),
                strs(occupied@),
                *counter as nat,
                (ID_ATTEMPTS - attempt) as nat,
            ),
            c0 + ID_ATTEMPTS <= u64::MAX,
            forall|m: u64| c0 < m <= *counter ==> !id_free(strs(taken@), strs(occupied@), m),
        decreases ID_ATTEMPTS - attempt,
    {
        *counter = *counter + 1;
        let (id, dir) = project_candidate(root, *counter);
        let row = holds(taken, &id);
        let busy = !row && holds(occupied, &id);
        match id_verdict(attempt, row, busy) {
            IdVerdict::Accept => {
                return Ok((id, dir));
            },
            IdVerdict::TryNext => {
                attempt = attempt + 1;
            },
            IdVerdict::GiveUp => {
                assert(alloc_from(strs(taken@), strs(occupied@), (*counter - 1) as nat, 1) == alloc_from(
                    strs(taken@),
                    strs(occupied@),
                    *counter as nat,
                    0,
                ));
                return Err(ids_exhausted_message());
            },
        }
    }
}

proof fn lemma_seq_of_id(n: u64)
    ensures
        seq_of(project_id_of(n)) == Some(n),
{
    let id = project_id_of(n);
    lemma_parse_dec(n);
    assert(id.skip(5) =~= dec(n as nat));
    assert(id.subrange(0, 5) =~= film_prefix());
}

/// Successive allocations never repeat an id: the counter only grows, and
/// two different numbers give two different ids.
pub proof fn law_allocations_distinct(n1: u64, n2: u64)
    requires
        n1 < n2,
    ensures
        project_id_of(n1) != project_id_of(n2),
{
    lemma_seq_of_id(n1);
    lemma_seq_of_id(n2);
}

proof fn lemma_alloc_after(t: Seq<Seq<char>>, o: Seq<Seq<char>>, c: nat, k: nat)
    ensures
        alloc_from(t, o, c, k) matches Some(n) ==> c < n <= c + k && free_nat(t, o, n),
    decreases k,
{
    if k > 0 && !free_nat(t, o, c + 1) {
        lemma_alloc_after(t, o, c + 1, (k - 1) as nat);
    }
}

/// Two allocations in turn, the second starting from (at least) where the
/// first left the counter, take two different ids, both free, the second
/// after the first. No bound on the counter is needed.
pub proof fn law_successive_allocations_distinct(
    taken: Seq<Seq<char>>,
    occupied: Seq<Seq<char>>,
    c0: nat,
    c1: nat,
    k: nat,
)
    requires
        alloc_from(taken, occupied, c0, k) is Some,
        c1 >= alloc_from(taken, occupied, c0, k)->0,
        alloc_from(taken, occupied, c1, k) is Some,
    ensures
        alloc_from(taken, occupied, c1, k)->0 > alloc_from(taken, occupied, c0, k)->0,
        id_of_nat(alloc_from(taken, occupied, c0, k)->0) != id_of_nat(alloc_from(taken, occupied, c1, k)->0),
        free_nat(taken, occupied, alloc_from(taken, occupied, c0, k)->0),
        free_nat(taken, occupied, alloc_from(taken, occupied, c1, k)->0),
{
    lemma_alloc_after(taken, occupied, c0, k);
    lemma_alloc_after(taken, occupied, c1, k);
    let n1 = alloc_from(taken, occupied, c0, k)->0;
    let n2 = alloc_from(taken, occupied, c1, k)->0;
    crate::text::lemma_dec_digits(n1);
    crate::text::lemma_dec_digits(n2);
    if id_of_nat(n1) == id_of_nat(n2) {
        assert(id_of_nat(n1).skip(5) =~= dec(n1));
        assert(id_of_nat(n2).skip(5) =~= dec(n2));
    }
}

/// Whether another character of the project (one whose id is not
/// `exclude`) already has the name.
pub open spec fn name_held(roster: Seq<FilmCharacter>, name: Seq<char>, exclude: Seq<char>) -> bool {
    exists|i: int| 0 <= i < roster.len() && (#[trigger] roster[i]).name@ == name && roster[i].id@ != exclude
}

/// Whether another character of the project already has the name (see
/// [`name_held`]); the check before a character is created or renamed.
pub fn character_name_taken(roster: &[FilmCharacter], name: &str, exclude: &str) -> (b: bool)
    ensures
        b == name_held(roster@, name@, exclude@),
{
    let mut i: usize = 0;
    while i < roster.len()
        invariant
            i <= roster@.len(),
            forall|j: int| 0 <= j < i ==> !((#[trigger] roster@[j]).name@ == name@ && roster@[j].id@ != exclude@),
        decreases roster.len() - i,
    {
        if str_eq(roster[i].name.as_str(), name) && !str_eq(roster[i].id.as_str(), exclude) {
            return true;
        }
        i = i + 1;
    }
    false
}

/// No two characters of a project share a name.
pub open spec fn names_unique(roster: Seq<FilmCharacter>) -> bool {
    forall|a: int, b: int| 0 <= a < b < roster.len() ==> (#[trigger] roster[a]).name@ != (#[trigger] roster[b]).name@
}

/// No two characters share an id.
pub open spec fn ids_unique(roster: Seq<FilmCharacter>) -> bool {
    forall|a: int, b: int| 0 <= a < b < roster.len() ==> (#[trigger] roster[a]).id@ != (#[trigger] roster[b]).id@
}

/// A character created under a name no other character has keeps the
/// project's names unique.
pub proof fn law_created_name_unique(roster: Seq<FilmCharacter>, c: FilmCharacter)
    requires
        names_unique(roster),
        !name_held(roster, c.name@, c.id@),
        forall|i: int| 0 <= i < roster.len() ==> (#[trigger] roster[i]).id@ != c.id@,
    ensures
        names_unique(roster.push(c)),
{
    let r = roster.push(c);
    assert forall|a: int, b: int| 0 <= a < b < r.len() implies (#[trigger] r[a]).name@ != (#[trigger] r[b]).name@ by {
        if b == roster.len() {
            assert(r[a] == roster[a]);
            assert(roster[a].id@ != c.id@);
        } else {
            assert(r[a] == roster[a] && r[b] == roster[b]);
        }
    }
}

/// Renaming a character to a name no other character has keeps the
/// project's names unique.
pub proof fn law_renamed_name_unique(roster: Seq<FilmCharacter>, i: int, c: FilmCharacter)
    requires
        names_unique(roster),
        ids_unique(roster),
        0 <= i < roster.len(),
        c.id@ == roster[i].id@,
        !name_held(roster, c.name@, c.id@),
    ensures
        names_unique(roster.update(i, c)),
{
    let r = roster.update(i, c);
    assert forall|a: int, b: int| 0 <= a < b < r.len() implies (#[trigger] r[a]).name@ != (#[trigger] r[b]).name@ by {
        if a == i {
            assert(r[b] == roster[b]);
            assert(roster[b].id@ != roster[i].id@);
        } else if b == i {
            assert(r[a] == roster[a]);
            assert(roster[a].id@ != roster[i].id@);
        } else {
            assert(r[a] == roster[a] && r[b] == roster[b]);
        }
    }
}

} // verus!
