//! Decisions of the request handler that stand before and after the work of
//! an endpoint: the install gate every business request passes, the route
//! or the 404 of an unrouted request, the replies for missing objects and
//! for a task that was not created, and what a project deletion does with
//! the project's directory.
use vstd::prelude::*;
use crate::paths::segments;
use crate::routes::{arm_table, dispatch, route_film, route_hub, Endpoint, HttpMethod, FILM_ARMS};
use crate::paths::path_segments;
use crate::paths::{check_get_path, check_put_path, first_bad, get_access, hub_abs, hub_path, hub_rel, pct_decode, percent_decode, put_access};
use crate::text::{chars_of, contains, find, find_from, CharSet, join, join_strings, split_char, split_strings, str_eq, strs};

verus! {

/// An error reply: its HTTP status and the `error` text of its body.
#[derive(Debug, Clone)]
pub struct Reply {
    pub status: u16,
    pub error: String,
}

/// The text of the reply when the film app is not installed.
pub open spec fn not_installed_text() -> Seq<char> {
    "应用「film」未安装：可在 应用中心 → 商店 安装"@
}

/// The install gate: while the film app is not installed every business
/// endpoint answers 404 with the install hint; once it is installed the
/// request goes on (`None`).
pub fn engine_gate(installed: bool) -> (r: Option<Reply>)
    ensures
        installed <==> r is None,
        r matches Some(x) ==> x.status == 404 && x.error@ == not_installed_text(),
{
    if installed {
        None
    } else {
        Some(Reply { status: 404, error: String::from_str("应用「film」未安装：可在 应用中心 → 商店 安装") })
    }
}

/// The last part of a `/`-split path that is neither empty nor `.`.
pub open spec fn last_part(parts: Seq<Seq<char>>) -> Option<Seq<char>>
    decreases parts.len(),
{
    if parts.len() == 0 {
        None
    } else if parts.last().len() > 0 && parts.last() != seq!['.'] {
        Some(parts.last())
    } else {
        last_part(parts.drop_last())
    }
}

/// The final component of a path, as `Path::file_name` gives it: `None` for
/// a path without one (empty, `/`, `.`) or ending in `..`.
pub open spec fn file_name(path: Seq<char>) -> Option<Seq<char>> {
    match last_part(split_char(path, '/')) {
        Some(x) => if x == seq!['.', '.'] {
            None
        } else {
            Some(x)
        },
        None => None,
    }
}

/// The final component of a path (see [`file_name`]).
pub fn path_file_name(path: &str) -> (r: Option<String>)
    ensures
        match r {
            Some(x) => file_name(path@) == Some(x@),
            None => file_name(path@) is None,
        },
{
    let parts = split_strings(path, '/');
    let ghost ps = strs(parts@);
    let mut i: usize = parts.len();
    assert(ps.take(ps.len() as int) =~= ps);
    while i > 0
        invariant
            i <= parts@.len(),
            ps == strs(parts@),
            ps == split_char(path@, '/'),
            last_part(ps) == last_part(ps.take(i as int)),
        decreases i,
    {
        let ghost t = ps.take(i as int);
        assert(t.last() == parts@[i - 1]@);
        assert(t.drop_last() =~= ps.take(i - 1));
        let p = &parts[i - 1];
        proof {
            reveal_strlit("");
            reveal_strlit(".");
            assert(""@ =~= Seq::<char>::empty());
            assert("."@ =~= seq!['.']);
        }
        if !str_eq(p.as_str(), "") && !str_eq(p.as_str(), ".") {
            proof {
                if p@.len() == 0 {
                    assert(p@ =~= ""@);
                }
                assert(p@.len() > 0);
                assert(p@ != seq!['.']);
            }
            proof {
                reveal_strlit("..");
                assert(".."@ =~= seq!['.', '.']);
            }
            if str_eq(p.as_str(), "..") {
                return None;
            }
            assert(p@ != seq!['.', '.']);
            return Some(p.clone());
        }
        proof {
            reveal_strlit(".");
        }
        i = i - 1;
    }
    assert(ps.take(0) =~= Seq::<Seq<char>>::empty());
    None
}

/// What deleting a project does with its directory.
#[derive(Debug, Clone, Copy)]
pub struct DeletePlan {
    /// The directory is removed with the row.
    pub remove_dir: bool,
    /// The directory is kept and the reply says so.
    pub dir_preserved: bool,
}

/// The deletion plan of project `id` whose row names directory `dir`: the
/// directory is removed only when its final component is the project id;
/// any other directory is kept and reported as preserved.
pub fn delete_plan(id: &str, dir: &str) -> (r: DeletePlan)
    ensures
        r.remove_dir == (file_name(dir@) == Some(id@)),
        r.dir_preserved == !r.remove_dir,
{
    let matches = match path_file_name(dir) {
        Some(n) => str_eq(n.as_str(), id),
        None => false,
    };
    DeletePlan { remove_dir: matches, dir_preserved: !matches }
}

/// What a request names that may not exist.
#[derive(Debug, Clone, Copy, PartialEq, Eq, Structural)]
pub enum Missing {
    Project,
    Character,
    Task,
}

/// The text of the 404 reply for a missing project, character or task.
pub open spec fn missing_text(what: Missing, id: Seq<char>) -> Seq<char> {
    match what {
        Missing::Project => "项目不存在: "@ + id,
        Missing::Character => "角色不存在: "@ + id,
        Missing::Task => "任务不存在: "@ + id,
    }
}

/// The 404 reply for a project, character or task `id` that does not exist.
pub fn missing_reply(what: Missing, id: &str) -> (r: Reply)
    ensures
        r.status == 404,
        r.error@ == missing_text(what, id@),
{
    let mut e = match what {
        Missing::Project => String::from_str("项目不存在: "),
        Missing::Character => String::from_str("角色不存在: "),
        Missing::Task => String::from_str("任务不存在: "),
    };
    e.append(id);
    Reply { status: 404, error: e }
}

/// The reply to a stage request once its task was created: `None` when the
/// task is found (the caller answers 202 with its summary), a 500 reply
/// naming the task otherwise.
pub fn task_created(found: bool, id: &str) -> (r: Option<Reply>)
    ensures
        found <==> r is None,
        r matches Some(x) ==> x.status == 500 && x.error@ == "任务创建异常: "@ + id@,
{
    if found {
        None
    } else {
        let mut e = String::from_str("任务创建异常: ");
        e.append(id);
        Some(Reply { status: 500, error: e })
    }
}

/// Whether request segments name a project's sub-path:
/// `api/v1/film/projects/<id>/...`.
pub open spec fn under_project(segs: Seq<Seq<char>>) -> bool {
    &&& segs.len() >= 5
    &&& segs[0] == "api"@
    &&& segs[1] == "v1"@
    &&& segs[2] == "film"@
    &&& segs[3] == "projects"@
}

/// The front of request handling. The install gate comes first; then the
/// component's own routes. A request that none of them serves and that
/// names a project (`api/v1/film/projects/<id>/...`) is answered 404 for
/// the project when it does not exist (`project_exists` tells whether the
/// project the path names exists; it is not read for other paths), else it
/// goes to the routes served under a project. Anything left is answered 404
/// `film: 未匹配的路由`.
pub fn admit_request(installed: bool, method: HttpMethod, path: &str, project_exists: bool) -> (r: Result<
    (Endpoint, Vec<String>),
    Reply,
>)
    ensures
        !installed ==> (r matches Err(x) && x.status == 404 && x.error@ == not_installed_text()),
        installed ==> ({
            let segs = segments(path@);
            let own = dispatch(arm_table().take(FILM_ARMS as int), method, segs);
            let hub = dispatch(arm_table().skip(FILM_ARMS as int), method, segs);
            match own {
                Some((e2, c2)) => r matches Ok((e, c)) && e == e2 && strs(c@) == c2,
                None => if under_project(segs) && !project_exists {
                    r matches Err(x) && x.status == 404 && x.error@ == missing_text(Missing::Project, segs[4])
                } else {
                    match (r, hub) {
                        (Ok((e, c)), Some((e2, c2))) => under_project(segs) && e == e2 && strs(c@) == c2,
                        (Err(x), None) => x.status == 404 && x.error@ == "film: 未匹配的路由"@,
                        (Err(x), Some(_)) => !under_project(segs) && x.status == 404 && x.error@
                            == "film: 未匹配的路由"@,
                        _ => false,
                    }
                },
            }
        }),
{
    if let Some(x) = engine_gate(installed) {
        return Err(x);
    }
    if let Some(found) = route_film(method, path) {
        return Ok(found);
    }
    let segs = path_segments(path);
    proof {
        reveal_strlit("api");
        reveal_strlit("v1");
        reveal_strlit("film");
        reveal_strlit("projects");
    }
    let shaped = segs.len() >= 5 && str_eq(segs[0].as_str(), "api") && str_eq(segs[1].as_str(), "v1")
        && str_eq(segs[2].as_str(), "film") && str_eq(segs[3].as_str(), "projects");
    assert(shaped == under_project(segments(path@)));
    if !shaped {
        return Err(Reply { status: 404, error: String::from_str("film: 未匹配的路由") });
    }
    if !project_exists {
        return Err(missing_reply(Missing::Project, segs[4].as_str()));
    }
    match route_hub(method, path) {
        Some(found) => Ok(found),
        None => Err(Reply { status: 404, error: String::from_str("film: 未匹配的路由") }),
    }
}

// ---------------------------------------------------------------------------
// The files surface
// ---------------------------------------------------------------------------

/// The status of a files error: 404 when its text says something does not
/// exist (`不存在`), 400 otherwise.
pub open spec fn files_status(m: Seq<char>) -> u16 {
    if contains(m, "不存在"@) {
        404
    } else {
        400
    }
}

/// The hub path a files request names: its captured segments joined with
/// `/` and percent-decoded.
pub open spec fn files_rel(rest: Seq<Seq<char>>) -> Seq<char> {
    pct_decode(join(rest, "/"@))
}

/// What a files GET of hub path `rel` under `root` comes to before the file
/// is read: refused by the read white list or by the path check (status per
/// [`files_status`]), else the file's absolute path and whether it is text.
pub open spec fn files_get_outcome(root: Seq<char>, rel: Seq<char>) -> Result<(Seq<char>, bool), (u16, Seq<char>)> {
    match get_access(rel) {
        Err(m) => Err((files_status(m), m)),
        Ok(t) => match hub_path(root, rel) {
            Err(m) => Err((files_status(m), m)),
            Ok(p) => Ok((p, t)),
        },
    }
}

fn status_of(m: &String) -> (s: u16)
    ensures
        s == files_status(m@),
{
    let v = chars_of(m.as_str());
    let pat = chars_of("不存在");
    assert(v@.skip(0) =~= v@);
    match find_from(&v, 0, &pat) {
        Some(_) => 404,
        None => 400,
    }
}

/// The target of a files GET under hub `root` whose path captured `rest`:
/// the decoded hub path, and its absolute path and kind (see
/// [`files_get_outcome`]), or the error reply.
pub fn files_get_target(root: &str, rest: &Vec<String>) -> (r: Result<(String, String, bool), Reply>)
    ensures
        match (r, files_get_outcome(root@, files_rel(strs(rest@)))) {
            (Ok((rel, abs, t)), Ok((p, t2))) => rel@ == files_rel(strs(rest@)) && abs@ == p && t == t2,
            (Err(x), Err((st, m))) => x.status == st && x.error@ == m,
            _ => false,
        },
{
    let joined = join_strings(rest, "/");
    let rel = percent_decode(joined.as_str());
    match check_get_path(rel.as_str()) {
        Err(m) => {
            let st = status_of(&m);
            Err(Reply { status: st, error: m })
        },
        Ok(t) => match hub_abs(root, rel.as_str()) {
            Err(m) => {
                let st = status_of(&m);
                Err(Reply { status: st, error: m })
            },
            Ok(abs) => Ok((rel, abs, t)),
        },
    }
}

/// The reply when the file a files GET names is not there.
pub fn files_missing_reply(rel: &str) -> (r: Reply)
    ensures
        r.status == 404,
        r.error@ == "文件不存在: "@ + rel@,
{
    let mut e = String::from_str("文件不存在: ");
    e.append(rel);
    Reply { status: 404, error: e }
}

/// What a files PUT of hub path `rel` under `root` comes to before it
/// writes: refused (400) by the write white list or by the path check, else
/// the file's absolute path.
pub open spec fn files_put_outcome(root: Seq<char>, rel: Seq<char>) -> Result<Seq<char>, Seq<char>> {
    match put_access(rel) {
        Err(m) => Err(m),
        Ok(()) => hub_path(root, rel),
    }
}

/// The target of a files PUT under hub `root` whose path captured `rest`
/// (see [`files_put_outcome`]); every refusal is answered 400.
pub fn files_put_target(root: &str, rest: &Vec<String>) -> (r: Result<(String, String), Reply>)
    ensures
        match (r, files_put_outcome(root@, files_rel(strs(rest@)))) {
            (Ok((rel, abs)), Ok(p)) => rel@ == files_rel(strs(rest@)) && abs@ == p,
            (Err(x), Err(m)) => x.status == 400 && x.error@ == m,
            _ => false,
        },
{
    let joined = join_strings(rest, "/");
    let rel = percent_decode(joined.as_str());
    match check_put_path(rel.as_str()) {
        Err(m) => Err(Reply { status: 400, error: m }),
        Ok(()) => match hub_abs(root, rel.as_str()) {
            Err(m) => Err(Reply { status: 400, error: m }),
            Ok(abs) => Ok((rel, abs)),
        },
    }
}

proof fn lemma_occurrence(s: Seq<char>, pat: Seq<char>)
    requires
        contains(s, pat),
    ensures
        exists|k: int| 0 <= k && k + pat.len() <= s.len() && #[trigger] s.subrange(k, k + pat.len()) == pat,
{
    crate::text::lemma_find_bounds(s, pat);
    let k = find(s, pat)->0;
    assert(s.subrange(k, k + pat.len()) == pat);
}

/// A text with no `不` that sits between two literals is not said to be
/// missing: `prefix + x + suffix` holds no `不存在` when `x` holds no `不`,
/// the suffix none either, and every `不` of the prefix is followed, within
/// the prefix, by something other than `存`.
proof fn lemma_no_missing_word(a: Seq<char>, x: Seq<char>, b: Seq<char>)
    requires
        !x.contains('不'),
        !b.contains('不'),
        forall|i: int| 0 <= i < a.len() && #[trigger] a[i] == '不' ==> i + 1 < a.len() && a[i + 1] != '存',
    ensures
        !contains(a + x + b, "不存在"@),
{
    reveal_strlit("不存在");
    let s = a + x + b;
    let pat = "不存在"@;
    if contains(s, pat) {
        lemma_occurrence(s, pat);
        let k = choose|k: int| 0 <= k && k + pat.len() <= s.len() && #[trigger] s.subrange(k, k + pat.len()) == pat;
        assert(s[k] == s.subrange(k, k + 3)[0]);
        assert(s[k + 1] == s.subrange(k, k + 3)[1]);
        assert(s[k] == '不');
        assert(s[k + 1] == '存');
        if k < a.len() {
            assert(s[k] == a[k]);
            assert(s[k + 1] == a[k + 1]);
        } else if k < a.len() + x.len() {
            assert(s[k] == x[k - a.len()]);
        } else {
            assert(s[k] == b[k - a.len() - x.len()]);
        }
    }
}

proof fn lemma_split_chars(s: Seq<char>, c: char)
    ensures
        forall|i: int, j: int|
            0 <= i < split_char(s, c).len() && 0 <= j < split_char(s, c)[i].len() ==> s.contains(
                #[trigger] split_char(s, c)[i][j],
            ),
    decreases s.len(),
{
    match find(s, seq![c]) {
        None => {},
        Some(k) => {
            crate::text::lemma_find_bounds(s, seq![c]);
            let rest = s.skip(k + 1);
            lemma_split_chars(rest, c);
            let parts = split_char(s, c);
            assert(parts == seq![s.take(k)] + split_char(rest, c));
            assert forall|i: int, j: int|
                0 <= i < parts.len() && 0 <= j < parts[i].len() implies s.contains(#[trigger] parts[i][j]) by {
                if i == 0 {
                    assert(parts[0][j] == s[j]);
                } else {
                    assert(parts[i] == split_char(rest, c)[i - 1]);
                    let ch = parts[i][j];
                    assert(rest.contains(ch));
                    let m = choose|m: int| 0 <= m < rest.len() && rest[m] == ch;
                    assert(s[k + 1 + m] == ch);
                }
            }
        },
    }
}

proof fn lemma_first_bad_member(segs: Seq<Seq<char>>)
    ensures
        first_bad(segs) matches Some(c) ==> exists|i: int| 0 <= i < segs.len() && segs[i] == c,
    decreases segs.len(),
{
    if segs.len() > 0 && !crate::paths::bad_segment(segs[0]) {
        lemma_first_bad_member(segs.drop_first());
        if let Some(c) = first_bad(segs) {
            let i = choose|i: int| 0 <= i < segs.drop_first().len() && segs.drop_first()[i] == c;
            assert(segs[i + 1] == c);
        }
    }
}

/// Whether a hub path has an empty, `.`, `..` or backslash segment (or is
/// empty): the paths that could leave the hub.
pub open spec fn traversing(rel: Seq<char>) -> bool {
    first_bad(split_char(hub_rel(rel), '/')) is Some
}

/// A files GET never serves a path that could leave the hub: such a path is
/// refused, and, unless the path itself holds a `不`, the refusal is a 400.
pub proof fn law_files_traversal_refused(root: Seq<char>, rel: Seq<char>)
    requires
        traversing(rel),
    ensures
        files_get_outcome(root, rel) is Err,
        !rel.contains('不') ==> (files_get_outcome(root, rel) matches Err((st, _)) && st == 400),
{
    reveal_strlit("路径不在 files 读白名单内: ");
    reveal_strlit("（文本=md/txt/json/srt；二进制=casting 视图/BGM 音轨/dist 成品/cache 半成品）");
    reveal_strlit("路径不可为空");
    reveal_strlit("非法路径段「");
    reveal_strlit("」（禁止穿越）");
    let wa = "路径不在 files 读白名单内: "@;
    let wb = "（文本=md/txt/json/srt；二进制=casting 视图/BGM 音轨/dist 成品/cache 半成品）"@;
    if !rel.contains('不') {
        match get_access(rel) {
            Err(m) => {
                assert(m == wa + rel + wb);
                assert(!wb.contains('不')) by {
                    if wb.contains('不') {
                        let i = choose|i: int| 0 <= i < wb.len() && wb[i] == '不';
                    }
                }
                lemma_no_missing_word(wa, rel, wb);
            },
            Ok(_) => {
                let r = hub_rel(rel);
                if r.len() == 0 {
                    let e = "路径不可为空"@;
                    assert(e == e + Seq::<char>::empty() + Seq::<char>::empty());
                    lemma_no_missing_word(e, Seq::<char>::empty(), Seq::<char>::empty());
                } else {
                    let segs = split_char(r, '/');
                    let c = first_bad(segs)->0;
                    lemma_first_bad_member(segs);
                    lemma_split_chars(r, '/');
                    crate::text::lemma_lstrip_is_skip(crate::text::trim(rel), CharSet::One('/'));
                    crate::text::lemma_lstrip_is_skip(rel, CharSet::Space);
                    crate::text::lemma_rstrip_is_take(crate::text::lstrip(rel, CharSet::Space), CharSet::Space);
                    assert(!c.contains('不')) by {
                        if c.contains('不') {
                            let j = choose|j: int| 0 <= j < c.len() && c[j] == '不';
                            let i = choose|i: int| 0 <= i < segs.len() && segs[i] == c;
                            assert(r.contains(segs[i][j]));
                            let m = choose|m: int| 0 <= m < r.len() && r[m] == '不';
                            let k1 = choose|k: int| 0 <= k <= crate::text::trim(rel).len() && hub_rel(rel)
                                == crate::text::trim(rel).skip(k);
                            let l = crate::text::lstrip(rel, CharSet::Space);
                            let k2 = choose|k: int| 0 <= k <= l.len() && crate::text::rstrip(l, CharSet::Space)
                                == l.take(k);
                            let k3 = choose|k: int| 0 <= k <= rel.len() && l == rel.skip(k);
                            assert(crate::text::trim(rel) == crate::text::rstrip(l, CharSet::Space));
                            assert(rel[k3 + m + k1] == '不');
                        }
                    }
                    let ta = "非法路径段「"@;
                    let tb = "」（禁止穿越）"@;
                    assert(!tb.contains('不')) by {
                        if tb.contains('不') {
                            let i = choose|i: int| 0 <= i < tb.len() && tb[i] == '不';
                        }
                    }
                    lemma_no_missing_word(ta, c, tb);
                }
            },
        }
    }
}

} // verus!
