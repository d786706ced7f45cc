//! The storyboard: name lists, character injection, voices, tolerant
//! extraction of the model's JSON output and partial shot updates.
use vstd::prelude::*;
use crate::model::{present, FilmCharacter, ScriptShot, ShotModel, shot_views};
use crate::text::{
    blank, chars_eq, chars_of, contains, find, find_from, is_blank, lemma_find_bounds,
    lemma_trim_trim, pattern, push_str, push_string, str_eq, strs, trim, trimmed,
};

verus! {

// ---------------------------------------------------------------------------
// Name lists
// ---------------------------------------------------------------------------

/// Names trimmed, blanks dropped, duplicates dropped (first occurrence kept).
pub open spec fn normalize_names(names: Seq<Seq<char>>) -> Seq<Seq<char>>
    decreases names.len(),
{
    if names.len() == 0 {
        seq![]
    } else {
        let prev = normalize_names(names.drop_last());
        let t = trim(names.last());
        if t.len() == 0 || prev.contains(t) {
            prev
        } else {
            prev.push(t)
        }
    }
}

/// Names that are trimmed, not empty and pairwise distinct.
pub open spec fn clean_names(r: Seq<Seq<char>>) -> bool {
    &&& forall|i: int| 0 <= i < r.len() ==> (#[trigger] r[i]).len() > 0 && trim(r[i]) == r[i]
    &&& forall|i: int, j: int| 0 <= i < j < r.len() ==> #[trigger] r[i] != #[trigger] r[j]
}

proof fn lemma_normalize_clean(names: Seq<Seq<char>>)
    ensures
        clean_names(normalize_names(names)),
        forall|x: Seq<char>| #[trigger] normalize_names(names).contains(x) <==> (x.len() > 0 && exists|k: int|
            0 <= k < names.len() && trim(#[trigger] names[k]) == x),
    decreases names.len(),
{
    if names.len() > 0 {
        let d = names.drop_last();
        lemma_normalize_clean(d);
        let prev = normalize_names(d);
        let t = trim(names.last());
        lemma_trim_trim(names.last());
        assert forall|x: Seq<char>| #[trigger] normalize_names(names).contains(x) <==> (x.len() > 0
            && exists|k: int| 0 <= k < names.len() && trim(#[trigger] names[k]) == x) by {
            if x.len() > 0 && exists|k: int| 0 <= k < names.len() && trim(#[trigger] names[k]) == x {
                let k = choose|k: int| 0 <= k < names.len() && trim(#[trigger] names[k]) == x;
                if k < names.len() - 1 {
                    assert(d[k] == names[k]);
                    assert(prev.contains(x));
                    if !(t.len() == 0 || prev.contains(t)) {
                        let i = choose|i: int| 0 <= i < prev.len() && prev[i] == x;
                        assert(prev.push(t)[i] == x);
                    }
                } else {
                    if !(t.len() == 0 || prev.contains(t)) {
                        assert(prev.push(t)[prev.len() as int] == t);
                    }
                }
            }
            if normalize_names(names).contains(x) {
                if !(t.len() == 0 || prev.contains(t)) {
                    let i = choose|i: int| 0 <= i < prev.push(t).len() && prev.push(t)[i] == x;
                    if i < prev.len() {
                        assert(prev[i] == x);
                        assert(prev.contains(x));
                    }
                }
                if prev.contains(x) {
                    let k = choose|k: int| 0 <= k < d.len() && trim(#[trigger] d[k]) == x;
                    assert(names[k] == d[k]);
                } else {
                    assert(trim(names[names.len() - 1]) == x);
                }
            }
        }
        if !(t.len() == 0 || prev.contains(t)) {
            let r = prev.push(t);
            assert forall|i: int, j: int| 0 <= i < j < r.len() implies #[trigger] r[i] != #[trigger] r[j] by {
                if j == prev.len() {
                    assert(r[i] == prev[i]);
                    if r[i] == r[j] {
                        assert(prev.contains(t));
                    }
                } else {
                    assert(r[i] == prev[i] && r[j] == prev[j]);
                }
            }
            assert forall|i: int| 0 <= i < r.len() implies (#[trigger] r[i]).len() > 0 && trim(r[i]) == r[i] by {
                if i < prev.len() {
                    assert(r[i] == prev[i]);
                }
            }
        }
    }
}

proof fn lemma_normalize_fixed(r: Seq<Seq<char>>)
    requires
        clean_names(r),
    ensures
        normalize_names(r) == r,
    decreases r.len(),
{
    if r.len() > 0 {
        let d = r.drop_last();
        assert forall|i: int| 0 <= i < d.len() implies (#[trigger] d[i]).len() > 0 && trim(d[i]) == d[i] by {
            assert(d[i] == r[i]);
        }
        assert forall|i: int, j: int| 0 <= i < j < d.len() implies #[trigger] d[i] != #[trigger] d[j] by {
            assert(d[i] == r[i] && d[j] == r[j]);
        }
        lemma_normalize_fixed(d);
        if d.contains(r.last()) {
            let i = choose|i: int| 0 <= i < d.len() && d[i] == r.last();
            assert(r[i] == r[r.len() - 1]);
        }
        assert(d.push(r.last()) =~= r);
    }
}

/// Normalized names are trimmed, not empty and distinct; they are exactly
/// the non-empty trimmed input names; and normalizing them again changes
/// nothing.
pub proof fn law_normalized_names(names: Seq<Seq<char>>)
    ensures
        clean_names(normalize_names(names)),
        forall|x: Seq<char>| #[trigger] normalize_names(names).contains(x) <==> (x.len() > 0 && exists|k: int|
            0 <= k < names.len() && trim(#[trigger] names[k]) == x),
        normalize_names(normalize_names(names)) == normalize_names(names),
{
    lemma_normalize_clean(names);
    lemma_normalize_fixed(normalize_names(names));
}

fn contains_string(v: &Vec<String>, s: &Vec<char>) -> (b: bool)
    ensures
        b == strs(v@).contains(s@),
{
    let mut i: usize = 0;
    while i < v.len()
        invariant
            i <= v.len(),
            forall|k: int| 0 <= k < i ==> strs(v@)[k] != s@,
        decreases v.len() - i,
    {
        let c = chars_of(v[i].as_str());
        if chars_eq(&c, s) {
            assert(strs(v@)[i as int] == s@);
            return true;
        }
        i = i + 1;
    }
    false
}

/// Name list normalization: each name trimmed, blank names dropped,
/// duplicates dropped keeping the first occurrence and the order.
pub fn normalize_character_names(names: &[String]) -> (r: Vec<String>)
    ensures
        strs(r@) == normalize_names(strs(names@)),
{
    let mut out: Vec<String> = Vec::new();
    let mut i: usize = 0;
    while i < names.len()
        invariant
            i <= names@.len(),
            strs(out@) == normalize_names(strs(names@).take(i as int)),
        decreases names.len() - i,
    {
        assert(strs(names@).take(i + 1).drop_last() =~= strs(names@).take(i as int));
        assert(strs(names@).take(i + 1).last() == names@[i as int]@);
        let t = trimmed(names[i].as_str());
        let tv = chars_of(t.as_str());
        if tv.len() == 0 || contains_string(&out, &tv) {
        } else {
            push_string(&mut out, t);
        }
        i = i + 1;
    }
    assert(strs(names@).take(names@.len() as int) =~= strs(names@));
    out
}

// ---------------------------------------------------------------------------
// Roster lookups
// ---------------------------------------------------------------------------

/// The first roster entry with the given name.
pub open spec fn roster_find(roster: Seq<FilmCharacter>, name: Seq<char>) -> Option<int>
    decreases roster.len(),
{
    if roster.len() == 0 {
        None
    } else if roster[0].name@ == name {
        Some(0)
    } else {
        match roster_find(roster.drop_first(), name) {
            Some(k) => Some(k + 1),
            None => None,
        }
    }
}

pub proof fn lemma_roster_find(roster: Seq<FilmCharacter>, name: Seq<char>)
    ensures
        roster_find(roster, name) matches Some(k) ==> 0 <= k < roster.len() && roster[k].name@
            == name,
    decreases roster.len(),
{
    if roster.len() > 0 && roster[0].name@ != name {
        lemma_roster_find(roster.drop_first(), name);
    }
}

pub(crate) fn find_in_roster(roster: &[FilmCharacter], name: &str) -> (r: Option<usize>)
    ensures
        match r {
            Some(i) => roster_find(roster@, name@) == Some(i as int),
            None => roster_find(roster@, name@) is None,
        },
{
    let mut i: usize = 0;
    assert(roster@.skip(0) =~= roster@);
    while i < roster.len()
        invariant
            i <= roster@.len(),
            crate::text::shift(roster_find(roster@.skip(i as int), name@), i as int)
                == roster_find(roster@, name@),
        decreases roster.len() - i,
    {
        if str_eq(roster[i].name.as_str(), name) {
            return Some(i);
        }
        assert(roster@.skip(i as int).drop_first() =~= roster@.skip(i + 1));
        i = i + 1;
    }
    None
}

/// The `角色「name」` tag that opens a character's block.
pub open spec fn char_tag(name: Seq<char>) -> Seq<char> {
    "角色「"@ + name + "」"@
}

/// One character's appearance block.
pub open spec fn char_part(c: FilmCharacter) -> Seq<char> {
    char_tag(c.name@) + "外形："@ + c.description@ + "（与其它镜头严格同一人物）"@
}

/// The appearance blocks for the names of a shot, in name order: a name
/// that occurred earlier in the list is skipped (its block, if any, is
/// already there), names outside the roster are skipped.
pub open spec fn char_parts(names: Seq<Seq<char>>, roster: Seq<FilmCharacter>) -> Seq<Seq<char>>
    decreases names.len(),
{
    if names.len() == 0 {
        seq![]
    } else {
        let prev = char_parts(names.drop_last(), roster);
        let name = names.last();
        if names.drop_last().contains(name) {
            prev
        } else {
            match roster_find(roster, name) {
                Some(k) => prev.push(char_part(roster[k])),
                None => prev,
            }
        }
    }
}

fn named_before(names: &[String], i: usize) -> (b: bool)
    requires
        i < names@.len(),
    ensures
        b == strs(names@).take(i as int).contains(names@[i as int]@),
{
    let mut j: usize = 0;
    while j < i
        invariant
            j <= i < names@.len(),
            forall|k: int| 0 <= k < j ==> strs(names@)[k] != names@[i as int]@,
        decreases i - j,
    {
        if str_eq(names[j].as_str(), names[i].as_str()) {
            assert(strs(names@).take(i as int)[j as int] == names@[i as int]@);
            return true;
        }
        j = j + 1;
    }
    assert forall|k: int| 0 <= k < i implies strs(names@).take(i as int)[k] != names@[i as int]@ by {
        assert(strs(names@).take(i as int)[k] == strs(names@)[k]);
    }
    false
}

/// Character consistency block for a shot: `角色「名」外形：描述（与其它镜头严格同一人物）`
/// per roster character named by the shot, in the shot's order, once each,
/// joined by `；`; `None` when no name is in the roster.
pub fn build_character_prompt_block(shot_characters: &[String], roster: &[FilmCharacter]) -> (r: Option<String>)
    ensures
        match r {
            Some(b) => char_parts(strs(shot_characters@), roster@).len() > 0 && b@
                == crate::text::join(char_parts(strs(shot_characters@), roster@), "；"@),
            None => char_parts(strs(shot_characters@), roster@).len() == 0,
        },
{
    let mut parts: Vec<String> = Vec::new();
    let mut i: usize = 0;
    while i < shot_characters.len()
        invariant
            i <= shot_characters@.len(),
            strs(parts@) == char_parts(strs(shot_characters@).take(i as int), roster@),
        decreases shot_characters.len() - i,
    {
        let ghost names = strs(shot_characters@).take(i + 1);
        assert(names.drop_last() =~= strs(shot_characters@).take(i as int));
        assert(names.last() == shot_characters@[i as int]@);
        let name = &shot_characters[i];
        assert(strs(shot_characters@).take(i as int) =~= names.drop_last());
        if !named_before(shot_characters, i) {
            match find_in_roster(roster, name.as_str()) {
                Some(k) => {
                    proof {
                        lemma_roster_find(roster@, name@);
                    }
                    let c = &roster[k];
                    let mut p = String::new();
                    p.append("角色「");
                    p.append(c.name.as_str());
                    p.append("」");
                    p.append("外形：");
                    p.append(c.description.as_str());
                    p.append("（与其它镜头严格同一人物）");
                    push_string(&mut parts, p);
                },
                None => {},
            }
        }
        i = i + 1;
    }
    assert(strs(shot_characters@).take(shot_characters@.len() as int) =~= strs(shot_characters@));
    if parts.len() == 0 {
        None
    } else {
        Some(crate::text::join_strings(&parts, "；"))
    }
}

/// The voice a shot's line is spoken with: the first named roster character
/// that has a (non-blank) voice; otherwise the configured default when not
/// blank; otherwise `alloy`.
pub open spec fn shot_voice(names: Seq<Seq<char>>, roster: Seq<FilmCharacter>, env: Option<Seq<char>>) -> Seq<char>
    decreases names.len(),
{
    if names.len() == 0 {
        match env {
            Some(e) => if !is_blank(e) {
                trim(e)
            } else {
                "alloy"@
            },
            None => "alloy"@,
        }
    } else {
        match roster_find(roster, names[0]) {
            Some(k) => if present(roster[k].voice) {
                trim(roster[k].voice.unwrap()@)
            } else {
                shot_voice(names.drop_first(), roster, env)
            },
            None => shot_voice(names.drop_first(), roster, env),
        }
    }
}

/// Fallback voice when neither a character nor the configuration gives one.
pub const TTS_VOICE_FALLBACK: &'static str = "alloy";

/// TTS voice of a shot: first named character with a voice, then the
/// configured default (trimmed, blank means unset), then `alloy`.
pub fn resolve_shot_voice(shot_characters: &[String], roster: &[FilmCharacter], env_voice: Option<&str>) -> (r: String)
    ensures
        r@ == shot_voice(strs(shot_characters@), roster@, crate::media::opt_str_view(env_voice)),
{
    let mut i: usize = 0;
    assert(strs(shot_characters@).skip(0) =~= strs(shot_characters@));
    while i < shot_characters.len()
        invariant
            i <= shot_characters@.len(),
            shot_voice(strs(shot_characters@), roster@, crate::media::opt_str_view(env_voice))
                == shot_voice(
                strs(shot_characters@).skip(i as int),
                roster@,
                crate::media::opt_str_view(env_voice),
            ),
        decreases shot_characters.len() - i,
    {
        let ghost rest = strs(shot_characters@).skip(i as int);
        assert(rest[0] == shot_characters@[i as int]@);
        assert(rest.drop_first() =~= strs(shot_characters@).skip(i + 1));
        match find_in_roster(roster, shot_characters[i].as_str()) {
            Some(k) => {
                proof {
                    lemma_roster_find(roster@, shot_characters@[i as int]@);
                }
                match &roster[k].voice {
                    Some(v) => {
                        if !blank(v.as_str()) {
                            return trimmed(v.as_str());
                        }
                    },
                    None => {},
                }
            },
            None => {},
        }
        i = i + 1;
    }
    match env_voice {
        Some(e) => {
            if !blank(e) {
                return trimmed(e);
            }
        },
        None => {},
    }
    String::from_str("alloy")
}


// ---------------------------------------------------------------------------
// Tolerant JSON extraction from model output
// ---------------------------------------------------------------------------

/// A code fence, three backticks.
pub open spec fn fence() -> Seq<char> {
    seq!['`', '`', '`']
}

/// The opening tag of a reasoning block.
pub open spec fn think_open() -> Seq<char> {
    seq!['<', 't', 'h', 'i', 'n', 'k', '>']
}

/// The closing tag of a reasoning block.
pub open spec fn think_close() -> Seq<char> {
    seq!['<', '/', 't', 'h', 'i', 'n', 'k', '>']
}

/// The bodies of the ``` fenced blocks of `rest`, each trimmed (the fence's
/// first line, such as ```json, is not part of the body).
pub open spec fn fenced_blocks(rest: Seq<char>) -> Seq<Seq<char>>
    decreases rest.len(),
{
    match find(rest, fence()) {
        None => seq![],
        Some(start) => {
            proof {
                lemma_find_bounds(rest, fence());
            }
            let after = rest.skip(start + fence().len());
            match find(after, seq!['\n']) {
                None => seq![],
                Some(nl) => {
                    proof {
                        lemma_find_bounds(after, seq!['\n']);
                    }
                    let body_from = nl + seq!['\n'].len();
                    match find(after.skip(body_from), fence()) {
                        None => seq![],
                        Some(end) => {
                            proof {
                                lemma_find_bounds(after.skip(body_from), fence());
                            }
                            seq![trim(after.subrange(body_from, body_from + end))] + fenced_blocks(
                                after.skip(body_from + end + fence().len()),
                            )
                        },
                    }
                },
            }
        },
    }
}

/// The slice from the first `open` to the last `close`, when the first comes
/// before the last.
pub open spec fn bracket_slice(t: Seq<char>, open: char, close: char) -> Option<Seq<char>> {
    match (find(t, seq![open]), crate::text::rfind_char(t, close)) {
        (Some(a), Some(b)) => if a < b {
            Some(t.subrange(a, b + 1))
        } else {
            None
        },
        _ => None,
    }
}

/// Candidate JSON texts of a model output: the trimmed text, every fenced
/// block, the outermost `open`..`close` slice.
pub open spec fn candidates(text: Seq<char>, open: char, close: char) -> Seq<Seq<char>> {
    let t = trim(text);
    seq![t] + fenced_blocks(t) + match bracket_slice(t, open, close) {
        Some(x) => seq![x],
        None => Seq::<Seq<char>>::empty(),
    }
}

#[verifier::spinoff_prover]
#[verifier::rlimit(40)]
fn push_fenced_blocks(out: &mut Vec<String>, v: &Vec<char>)
    ensures
        strs(final(out)@) == strs(old(out)@) + fenced_blocks(v@),
{
    let fence_v: Vec<char> = vec!['`', '`', '`'];
    let nl: Vec<char> = vec!['\n'];
    assert(fence_v@ =~= fence());
    assert(nl@ =~= seq!['\n']);
    let mut pos: usize = 0;
    assert(v@.skip(0) =~= v@);
    loop
        invariant
            pos <= v.len(),
            fence_v@ == fence(),
            nl@ == seq!['\n'],
            strs(old(out)@) + fenced_blocks(v@) == strs(out@) + fenced_blocks(v@.skip(pos as int)),
        decreases v.len() - pos,
    {
        let ghost rest = v@.skip(pos as int);
        proof {
            lemma_find_bounds(rest, fence());
        }
        let start = match find_from(v, pos, &fence_v) {
            Some(st) => st,
            None => {
                assert(fenced_blocks(rest) =~= Seq::<Seq<char>>::empty());
                assert(strs(out@) + fenced_blocks(rest) =~= strs(out@));
                return;
            },
        };
        let a = start + 3;
        let ghost after = rest.skip(start - pos + 3);
        assert(after =~= v@.skip(a as int));
        proof {
            lemma_find_bounds(after, seq!['\n']);
        }
        let n = match find_from(v, a, &nl) {
            Some(n) => n,
            None => {
                assert(fenced_blocks(rest) =~= Seq::<Seq<char>>::empty());
                assert(strs(out@) + fenced_blocks(rest) =~= strs(out@));
                return;
            },
        };
        let body_from = n + 1;
        assert(after.skip(body_from - a) =~= v@.skip(body_from as int));
        proof {
            lemma_find_bounds(v@.skip(body_from as int), fence());
        }
        let e = match find_from(v, body_from, &fence_v) {
            Some(e) => e,
            None => {
                assert(fenced_blocks(rest) =~= Seq::<Seq<char>>::empty());
                assert(strs(out@) + fenced_blocks(rest) =~= strs(out@));
                return;
            },
        };
        let (x, y) = crate::text::strip_range(v, body_from, e, &crate::text::CharSet::Space);
        let b = crate::text::string_of_range(v, x, y);
        assert(after.subrange(body_from - a, e - a) =~= v@.subrange(body_from as int, e as int));
        let ghost before = strs(out@);
        push_string(out, b);
        let next = e + 3;
        assert(after.skip(e - a + 3) =~= v@.skip(next as int));
        assert(fenced_blocks(rest) =~= seq![trim(v@.subrange(body_from as int, e as int))]
            + fenced_blocks(v@.skip(next as int)));
        assert(strs(out@) =~= before.push(trim(v@.subrange(body_from as int, e as int))));
        pos = next;
    }
}

/// Candidate JSON texts: trimmed output, fenced blocks, outermost
/// `open`..`close` slice.
pub fn json_candidates_with(text: &str, open: char, close: char) -> (r: Vec<String>)
    ensures
        strs(r@) == candidates(text@, open, close),
{
    let t = trimmed(text);
    let v = chars_of(t.as_str());
    let mut out: Vec<String> = Vec::new();
    push_str(&mut out, t.as_str());
    push_fenced_blocks(&mut out, &v);
    let mut o: Vec<char> = Vec::new();
    o.push(open);
    assert(o@ =~= seq![open]);
    let a = find_from(&v, 0, &o);
    assert(v@.skip(0) =~= v@);
    assert(v@.take(v@.len() as int) =~= v@);
    let b = crate::text::rfind_char_in(&v, v.len(), close);
    match (a, b) {
        (Some(a), Some(b)) => {
            if a < b {
                push_string(&mut out, crate::text::string_of_range(&v, a, b + 1));
            }
        },
        _ => {},
    }
    out
}

/// Candidate JSON array texts of a model output (trimmed text, fenced
/// blocks, first `[` to last `]`).
pub fn json_candidates(text: &str) -> (r: Vec<String>)
    ensures
        strs(r@) == candidates(text@, '[', ']'),
{
    json_candidates_with(text, '[', ']')
}

/// Candidate JSON object texts of a model output (trimmed text, fenced
/// blocks, first `{` to last `}`).
pub fn json_object_candidates(text: &str) -> (r: Vec<String>)
    ensures
        strs(r@) == candidates(text@, '{', '}'),
{
    json_candidates_with(text, '{', '}')
}

/// Text with every `<think>…</think>` block removed; an unclosed `<think>`
/// drops everything after it.
pub open spec fn strip_think(s: Seq<char>) -> Seq<char>
    decreases s.len(),
{
    match find(s, think_open()) {
        None => s,
        Some(start) => {
            proof {
                lemma_find_bounds(s, think_open());
            }
            let after = s.skip(start + think_open().len());
            match find(after, think_close()) {
                Some(end) => {
                    proof {
                        lemma_find_bounds(after, think_close());
                    }
                    s.take(start) + strip_think(after.skip(end + think_close().len()))
                },
                None => s.take(start),
            }
        },
    }
}

/// Removes reasoning blocks `<think>…</think>` from model output; an
/// unclosed block swallows the rest of the text.
pub fn strip_think_blocks(text: &str) -> (r: String)
    ensures
        r@ == strip_think(text@),
{
    let v = chars_of(text);
    let open: Vec<char> = vec!['<', 't', 'h', 'i', 'n', 'k', '>'];
    let close: Vec<char> = vec!['<', '/', 't', 'h', 'i', 'n', 'k', '>'];
    assert(open@ =~= think_open());
    assert(close@ =~= think_close());
    let mut out = String::new();
    let mut pos: usize = 0;
    assert(v@.skip(0) =~= v@);
    loop
        invariant
            pos <= v.len(),
            v@ == text@,
            open@ == think_open(),
            close@ == think_close(),
            strip_think(v@) == out@ + strip_think(v@.skip(pos as int)),
        decreases v.len() - pos,
    {
        let ghost rest = v@.skip(pos as int);
        proof {
            lemma_find_bounds(rest, think_open());
        }
        match find_from(&v, pos, &open) {
            None => {
                crate::text::push_range(&mut out, &v, pos, v.len());
                assert(v@.subrange(pos as int, v@.len() as int) =~= rest);
                return out;
            },
            Some(start) => {
                assert(rest.take(start - pos) =~= v@.subrange(pos as int, start as int));
                crate::text::push_range(&mut out, &v, pos, start);
                let a = start + 7;
                let ghost after = rest.skip(start - pos + 7);
                assert(after =~= v@.skip(a as int));
                proof {
                    lemma_find_bounds(after, think_close());
                }
                match find_from(&v, a, &close) {
                    Some(e) => {
                        let next = e + 8;
                        assert(after.skip(e - a + 8) =~= v@.skip(next as int));
                        pos = next;
                    },
                    None => {
                        return out;
                    },
                }
            },
        }
    }
}


// ---------------------------------------------------------------------------
// Shots from parsed model output
// ---------------------------------------------------------------------------

/// The `duration_secs` field of a raw shot as the model gave it.
pub enum RawDuration {
    /// A JSON number (`Some` when it is a non-negative integer).
    Number(Option<u64>),
    /// A JSON string such as `"8"` or `"8秒"`.
    Text(String),
    /// Any other JSON value.
    Other,
}

/// One element of the model's storyboard array, every field optional.
pub struct RawShot {
    pub shot: Option<u32>,
    pub desc: Option<String>,
    pub image_prompt: Option<String>,
    pub video_prompt: Option<String>,
    pub line: Option<String>,
    pub duration_secs: Option<RawDuration>,
    pub characters: Option<Vec<String>>,
    pub props: Option<Vec<String>>,
    pub pets: Option<Vec<String>>,
    pub scenes: Option<Vec<String>>,
    pub actions: Option<Vec<String>>,
}

/// Default shot duration in seconds.
pub const SHOT_DURATION_DEFAULT_SECS: u32 = 5;

/// Longest shot in seconds.
pub const SHOT_DURATION_MAX_SECS: u32 = 60;

/// Most shots kept from one model answer.
pub const SHOTS_ACCEPT_MAX: usize = 24;

pub open spec fn opt_text(o: Option<String>) -> Seq<char> {
    match o {
        Some(s) => s@,
        None => seq![],
    }
}

pub open spec fn opt_names(o: Option<Vec<String>>) -> Seq<Seq<char>> {
    match o {
        Some(v) => strs(v@),
        None => seq![],
    }
}

/// Seconds a raw duration names: a number, or a string holding a number
/// optionally followed by `秒`.
pub open spec fn raw_seconds(d: Option<RawDuration>) -> Option<u64> {
    match d {
        Some(RawDuration::Number(n)) => n,
        Some(RawDuration::Text(t)) => crate::text::parse_u64(
            trim(crate::text::rstrip(trim(t@), crate::text::CharSet::One('秒'))),
        ),
        _ => None,
    }
}

/// Shot duration: the given seconds (5 when absent or beyond `u32`),
/// clamped to `1..=60`.
pub open spec fn clamp_duration(n: Option<u64>) -> u32 {
    let v: u32 = match n {
        Some(x) => if x <= u32::MAX {
            x as u32
        } else {
            5
        },
        None => 5,
    };
    if v < 1 {
        1
    } else if v > 60 {
        60
    } else {
        v
    }
}

/// The shot a raw element at position `idx` becomes.
pub open spec fn shot_from_raw(r: RawShot, idx: nat) -> ShotModel {
    ShotModel {
        shot: match r.shot {
            Some(n) => n,
            None => if idx + 1 <= u32::MAX {
                (idx + 1) as u32
            } else {
                1
            },
        },
        desc: trim(opt_text(r.desc)),
        image_prompt: trim(opt_text(r.image_prompt)),
        video_prompt: trim(opt_text(r.video_prompt)),
        line: trim(opt_text(r.line)),
        duration_secs: clamp_duration(raw_seconds(r.duration_secs)),
        characters: normalize_names(opt_names(r.characters)),
        props: normalize_names(opt_names(r.props)),
        pets: normalize_names(opt_names(r.pets)),
        scenes: normalize_names(opt_names(r.scenes)),
        actions: normalize_names(opt_names(r.actions)),
    }
}

/// A raw element is kept unless both its description and its image prompt are blank.
pub open spec fn keeps(r: RawShot) -> bool {
    !(trim(opt_text(r.desc)).len() == 0 && trim(opt_text(r.image_prompt)).len() == 0)
}

/// The shots of a parsed array, in order, noise elements dropped.
pub open spec fn shots_of_raw(raw: Seq<RawShot>) -> Seq<ShotModel>
    decreases raw.len(),
{
    if raw.len() == 0 {
        seq![]
    } else {
        let prev = shots_of_raw(raw.drop_last());
        if keeps(raw.last()) {
            prev.push(shot_from_raw(raw.last(), (raw.len() - 1) as nat))
        } else {
            prev
        }
    }
}

/// At most 24 shots.
pub open spec fn cap_shots(s: Seq<ShotModel>) -> Seq<ShotModel> {
    if s.len() > 24 {
        s.take(24)
    } else {
        s
    }
}

pub open spec fn parsed_views(p: Seq<Option<Vec<RawShot>>>) -> Seq<Option<Seq<RawShot>>> {
    p.map_values(|o: Option<Vec<RawShot>>| match o {
        Some(v) => Some(v@),
        None => None,
    })
}

/// The shots of the first candidate that parsed and keeps at least one shot.
pub open spec fn first_usable(parsed: Seq<Option<Seq<RawShot>>>) -> Option<Seq<ShotModel>>
    decreases parsed.len(),
{
    if parsed.len() == 0 {
        None
    } else {
        match parsed[0] {
            Some(raw) => if shots_of_raw(raw).len() > 0 {
                Some(cap_shots(shots_of_raw(raw)))
            } else {
                first_usable(parsed.drop_first())
            },
            None => first_usable(parsed.drop_first()),
        }
    }
}

fn trim_opt(o: &Option<String>) -> (r: String)
    ensures
        r@ == trim(opt_text(*o)),
{
    match o {
        Some(s) => trimmed(s.as_str()),
        None => {
            let e = String::new();
            assert(trim(e@) =~= e@) by {
                assert(e@.len() == 0);
            }
            e
        },
    }
}

fn names_opt(o: &Option<Vec<String>>) -> (r: Vec<String>)
    ensures
        strs(r@) == normalize_names(opt_names(*o)),
{
    match o {
        Some(v) => normalize_character_names(v.as_slice()),
        None => {
            let e: Vec<String> = Vec::new();
            assert(strs(e@) =~= normalize_names(Seq::<Seq<char>>::empty()));
            e
        },
    }
}

fn raw_seconds_exec(d: &Option<RawDuration>) -> (r: Option<u64>)
    ensures
        r == raw_seconds(*d),
{
    match d {
        Some(RawDuration::Number(n)) => *n,
        Some(RawDuration::Text(t)) => {
            let v = chars_of(t.as_str());
            let (a, b) = crate::text::strip_range(&v, 0, v.len(), &crate::text::CharSet::Space);
            assert(v@.subrange(0, v@.len() as int) =~= v@);
            let b2 = crate::text::rstrip_index(&v, a, b, &crate::text::CharSet::One('秒'));
            let (x, y) = crate::text::strip_range(&v, a, b2, &crate::text::CharSet::Space);
            crate::text::parse_u64_chars(&v, x, y)
        },
        _ => None,
    }
}

fn clamp_duration_exec(n: Option<u64>) -> (r: u32)
    ensures
        r == clamp_duration(n),
{
    let v: u32 = match n {
        Some(x) => if x <= 4294967295u64 {
            x as u32
        } else {
            5
        },
        None => 5,
    };
    if v < 1 {
        1
    } else if v > 60 {
        60
    } else {
        v
    }
}

fn shot_of(r: &RawShot, idx: usize) -> (s: ScriptShot)
    ensures
        s@ == shot_from_raw(*r, idx as nat),
{
    let shot = match r.shot {
        Some(n) => n,
        None => if idx < 4294967295usize {
            (idx + 1) as u32
        } else {
            1
        },
    };
    ScriptShot {
        shot,
        desc: trim_opt(&r.desc),
        image_prompt: trim_opt(&r.image_prompt),
        video_prompt: trim_opt(&r.video_prompt),
        line: trim_opt(&r.line),
        duration_secs: clamp_duration_exec(raw_seconds_exec(&r.duration_secs)),
        characters: names_opt(&r.characters),
        props: names_opt(&r.props),
        pets: names_opt(&r.pets),
        scenes: names_opt(&r.scenes),
        actions: names_opt(&r.actions),
    }
}

/// The shots of one parsed storyboard array: elements whose description and
/// image prompt are both blank are dropped; missing numbers default to the
/// position (from 1); durations default to 5 and are clamped to `1..=60`;
/// texts are trimmed; name lists are normalized.
pub fn shots_from_raw(raw: &Vec<RawShot>) -> (r: Vec<ScriptShot>)
    ensures
        shot_views(r@) == shots_of_raw(raw@),
{
    let mut out: Vec<ScriptShot> = Vec::new();
    let mut i: usize = 0;
    while i < raw.len()
        invariant
            i <= raw.len(),
            shot_views(out@) == shots_of_raw(raw@.take(i as int)),
        decreases raw.len() - i,
    {
        assert(raw@.take(i + 1).drop_last() =~= raw@.take(i as int));
        assert(raw@.take(i + 1).last() == raw@[i as int]);
        let r = &raw[i];
        let d = trim_opt(&r.desc);
        let ip = trim_opt(&r.image_prompt);
        let ghost before = shot_views(out@);
        let dv = chars_of(d.as_str());
        let iv = chars_of(ip.as_str());
        if dv.len() != 0 || iv.len() != 0 {
            let s = shot_of(r, i);
            out.push(s);
            assert(shot_views(out@) =~= before.push(shot_from_raw(raw@[i as int], i as nat)));
        }
        i = i + 1;
    }
    assert(raw@.take(raw@.len() as int) =~= raw@);
    out
}

/// The storyboard from the parse results of the candidate texts (in
/// candidate order; `None` where a candidate is not a JSON array of shots):
/// the first candidate with at least one kept shot, capped at 24 shots.
pub fn shots_from_candidates(parsed: &Vec<Option<Vec<RawShot>>>) -> (r: Result<Vec<ScriptShot>, String>)
    ensures
        match r {
            Ok(v) => first_usable(parsed_views(parsed@)) == Some(shot_views(v@)),
            Err(e) => first_usable(parsed_views(parsed@)) is None && e@
                == "无法从 LLM 输出解析出分镜 JSON 数组"@,
        },
{
    let mut i: usize = 0;
    assert(parsed_views(parsed@).skip(0) =~= parsed_views(parsed@));
    while i < parsed.len()
        invariant
            i <= parsed.len(),
            first_usable(parsed_views(parsed@)) == first_usable(parsed_views(parsed@).skip(i as int)),
        decreases parsed.len() - i,
    {
        assert(parsed_views(parsed@).skip(i as int).drop_first() =~= parsed_views(parsed@).skip(i + 1));
        assert(parsed_views(parsed@).skip(i as int)[0] == match parsed@[i as int] {
            Some(v) => Some(v@),
            None => None::<Seq<RawShot>>,
        });
        match &parsed[i] {
            Some(raw) => {
                let mut shots = shots_from_raw(raw);
                if shots.len() > 0 {
                    if shots.len() > SHOTS_ACCEPT_MAX {
                        shots.truncate(SHOTS_ACCEPT_MAX);
                        assert(shot_views(shots@) =~= shots_of_raw(raw@).take(24));
                    }
                    return Ok(shots);
                }
            },
            None => {},
        }
        i = i + 1;
    }
    Err(String::from_str("无法从 LLM 输出解析出分镜 JSON 数组"))
}

/// Candidate texts for the storyboard array of a model answer: reasoning
/// blocks removed, then trimmed text, fenced blocks and the `[`..`]` slice.
pub fn script_candidates(text: &str) -> (r: Vec<String>)
    ensures
        strs(r@) == candidates(strip_think(text@), '[', ']'),
{
    let t = strip_think_blocks(text);
    json_candidates(t.as_str())
}


// ---------------------------------------------------------------------------
// Partial storyboard updates
// ---------------------------------------------------------------------------

/// A partial update of one shot, located by its number.
pub struct ShotPatch {
    pub shot: Option<u32>,
    pub desc: Option<String>,
    pub image_prompt: Option<String>,
    pub video_prompt: Option<String>,
    pub line: Option<String>,
    pub duration_secs: Option<u32>,
    pub characters: Option<Vec<String>>,
}

pub open spec fn patched_text(old: Seq<char>, p: Option<String>) -> Seq<char> {
    match p {
        Some(v) => trim(v@),
        None => old,
    }
}

/// A shot with the fields of a patch applied (texts trimmed, duration
/// clamped to `1..=60`, names normalized); absent fields are kept.
pub open spec fn patch_shot(s: ShotModel, p: ShotPatch) -> ShotModel {
    ShotModel {
        desc: patched_text(s.desc, p.desc),
        image_prompt: patched_text(s.image_prompt, p.image_prompt),
        video_prompt: patched_text(s.video_prompt, p.video_prompt),
        line: patched_text(s.line, p.line),
        duration_secs: match p.duration_secs {
            Some(v) => if v < 1 {
                1
            } else if v > 60 {
                60
            } else {
                v
            },
            None => s.duration_secs,
        },
        characters: match p.characters {
            Some(v) => normalize_names(strs(v@)),
            None => s.characters,
        },
        ..s
    }
}

/// Index of the first shot with the given number.
pub open spec fn find_shot(shots: Seq<ShotModel>, no: u32) -> Option<int>
    decreases shots.len(),
{
    if shots.len() == 0 {
        None
    } else if shots[0].shot == no {
        Some(0)
    } else {
        match find_shot(shots.drop_first(), no) {
            Some(k) => Some(k + 1),
            None => None,
        }
    }
}

proof fn lemma_find_shot(shots: Seq<ShotModel>, no: u32)
    ensures
        find_shot(shots, no) matches Some(k) ==> 0 <= k < shots.len() && shots[k].shot == no,
    decreases shots.len(),
{
    if shots.len() > 0 && shots[0].shot != no {
        lemma_find_shot(shots.drop_first(), no);
    }
}

/// The patches applied in order; the first patch without a number, or with a
/// number no shot has, stops the run with its error (earlier patches stay
/// applied).
pub open spec fn apply_patches(shots: Seq<ShotModel>, patches: Seq<ShotPatch>) -> (Seq<ShotModel>, Option<Seq<char>>)
    decreases patches.len(),
{
    if patches.len() == 0 {
        (shots, None)
    } else {
        let p = patches[0];
        match p.shot {
            None => (shots, Some("script 补丁缺 shot/index 镜头号"@)),
            Some(no) => match find_shot(shots, no) {
                None => (shots, Some("镜头 "@ + crate::text::dec(no as nat) + " 不在分镜中，无法局部更新"@)),
                Some(i) => apply_patches(shots.update(i, patch_shot(shots[i], p)), patches.drop_first()),
            },
        }
    }
}

/// Patching keeps the storyboard's shape: as many shots as before, each
/// with its number, in the same order.
pub proof fn law_patches_keep_numbering(shots: Seq<ShotModel>, patches: Seq<ShotPatch>)
    ensures
        apply_patches(shots, patches).0.len() == shots.len(),
        forall|i: int| 0 <= i < shots.len() ==> (#[trigger] apply_patches(shots, patches).0[i]).shot == shots[i].shot,
    decreases patches.len(),
{
    if patches.len() > 0 {
        let p = patches[0];
        if let Some(no) = p.shot {
            lemma_find_shot(shots, no);
            if let Some(i) = find_shot(shots, no) {
                let next = shots.update(i, patch_shot(shots[i], p));
                law_patches_keep_numbering(next, patches.drop_first());
                assert forall|j: int| 0 <= j < shots.len() implies (#[trigger] apply_patches(shots, patches).0[j]).shot
                    == shots[j].shot by {
                    assert(next[j].shot == shots[j].shot);
                }
            }
        }
    }
}

/// Applying the same patch twice gives what applying it once gives.
pub proof fn law_patch_idempotent(s: ShotModel, p: ShotPatch)
    ensures
        patch_shot(patch_shot(s, p), p) == patch_shot(s, p),
{
}

fn find_shot_index(shots: &Vec<ScriptShot>, no: u32) -> (r: Option<usize>)
    ensures
        match r {
            Some(i) => find_shot(shot_views(shots@), no) == Some(i as int),
            None => find_shot(shot_views(shots@), no) is None,
        },
{
    let mut i: usize = 0;
    assert(shot_views(shots@).skip(0) =~= shot_views(shots@));
    while i < shots.len()
        invariant
            i <= shots.len(),
            crate::text::shift(find_shot(shot_views(shots@).skip(i as int), no), i as int)
                == find_shot(shot_views(shots@), no),
        decreases shots.len() - i,
    {
        if shots[i].shot == no {
            return Some(i);
        }
        assert(shot_views(shots@).skip(i as int).drop_first() =~= shot_views(shots@).skip(i + 1));
        i = i + 1;
    }
    None
}

fn patch_one(s: &mut ScriptShot, p: &ShotPatch)
    ensures
        final(s)@ == patch_shot(old(s)@, *p),
{
    match &p.desc {
        Some(v) => {
            s.desc = trimmed(v.as_str());
        },
        None => {},
    }
    match &p.image_prompt {
        Some(v) => {
            s.image_prompt = trimmed(v.as_str());
        },
        None => {},
    }
    match &p.video_prompt {
        Some(v) => {
            s.video_prompt = trimmed(v.as_str());
        },
        None => {},
    }
    match &p.line {
        Some(v) => {
            s.line = trimmed(v.as_str());
        },
        None => {},
    }
    match p.duration_secs {
        Some(v) => {
            s.duration_secs = if v < 1 {
                1
            } else if v > 60 {
                60
            } else {
                v
            };
        },
        None => {},
    }
    match &p.characters {
        Some(v) => {
            s.characters = normalize_character_names(v.as_slice());
        },
        None => {},
    }
}

/// Applies partial shot updates by shot number (absent fields kept, texts
/// trimmed, duration clamped, names normalized). A patch without a number,
/// or naming a shot that does not exist, is an error; patches before it stay
/// applied.
pub fn apply_shot_patches(shots: &mut Vec<ScriptShot>, patches: &[ShotPatch]) -> (r: Result<(), String>)
    ensures
        apply_patches(shot_views(old(shots)@), patches@) == (shot_views(final(shots)@), match r {
            Ok(()) => None,
            Err(e) => Some(e@),
        }),
{
    let mut k: usize = 0;
    assert(patches@.skip(0) =~= patches@);
    while k < patches.len()
        invariant
            k <= patches@.len(),
            apply_patches(shot_views(old(shots)@), patches@) == apply_patches(
                shot_views(shots@),
                patches@.skip(k as int),
            ),
        decreases patches.len() - k,
    {
        let p = &patches[k];
        let ghost rest = patches@.skip(k as int);
        assert(rest[0] == *p);
        assert(rest.drop_first() =~= patches@.skip(k + 1));
        let no = match p.shot {
            Some(n) => n,
            None => {
                return Err(String::from_str("script 补丁缺 shot/index 镜头号"));
            },
        };
        match find_shot_index(shots, no) {
            None => {
                let mut m = String::new();
                m.append("镜头 ");
                crate::text::push_dec(&mut m, no as u64);
                m.append(" 不在分镜中，无法局部更新");
                return Err(m);
            },
            Some(i) => {
                proof {
                    lemma_find_shot(shot_views(shots@), no);
                }
                let ghost before = shot_views(shots@);
                let mut s = shots.remove(i);
                patch_one(&mut s, p);
                shots.insert(i, s);
                assert(shot_views(shots@) =~= before.update(i as int, patch_shot(before[i as int], *p)));
            },
        }
        k = k + 1;
    }
    assert(patches@.skip(k as int) =~= Seq::<ShotPatch>::empty());
    Ok(())
}

// ---------------------------------------------------------------------------
// Bindings outside the roster
// ---------------------------------------------------------------------------

/// The names a shot binds that the roster does not hold, with the shot's number.
pub open spec fn shot_unknown(shot: u32, chars: Seq<Seq<char>>, names: Seq<Seq<char>>) -> Seq<(u32, Seq<char>)>
    decreases chars.len(),
{
    if chars.len() == 0 {
        seq![]
    } else if names.contains(chars.last()) {
        shot_unknown(shot, chars.drop_last(), names)
    } else {
        shot_unknown(shot, chars.drop_last(), names).push((shot, chars.last()))
    }
}

/// Every binding to a name outside the roster, shot by shot (none when the
/// roster is empty: then no name is checked).
pub open spec fn unknown_bindings(shots: Seq<ShotModel>, names: Seq<Seq<char>>) -> Seq<(u32, Seq<char>)>
    decreases shots.len(),
{
    if names.len() == 0 || shots.len() == 0 {
        seq![]
    } else {
        unknown_bindings(shots.drop_last(), names) + shot_unknown(
            shots.last().shot,
            shots.last().characters,
            names,
        )
    }
}

/// The shot bindings to names outside the roster, which the storyboard
/// stage keeps as they are and reports.
pub fn unknown_character_bindings(shots: &Vec<ScriptShot>, roster_names: &Vec<String>) -> (r: Vec<(u32, String)>)
    ensures
        r@.map_values(|x: (u32, String)| (x.0, x.1@)) == unknown_bindings(shot_views(shots@), strs(roster_names@)),
{
    let ghost names = strs(roster_names@);
    let ghost sv = shot_views(shots@);
    let mut out: Vec<(u32, String)> = Vec::new();
    if roster_names.len() == 0 {
        assert(out@.map_values(|x: (u32, String)| (x.0, x.1@)) =~= Seq::<(u32, Seq<char>)>::empty());
        return out;
    }
    let mut i: usize = 0;
    assert(sv.take(0) =~= Seq::<ShotModel>::empty());
    assert(out@.map_values(|x: (u32, String)| (x.0, x.1@)) =~= Seq::<(u32, Seq<char>)>::empty());
    while i < shots.len()
        invariant
            i <= shots@.len(),
            names == strs(roster_names@),
            names.len() > 0,
            sv == shot_views(shots@),
            sv.len() == shots@.len(),
            out@.map_values(|x: (u32, String)| (x.0, x.1@)) == unknown_bindings(sv.take(i as int), names),
        decreases shots.len() - i,
    {
        let ghost before = out@.map_values(|x: (u32, String)| (x.0, x.1@));
        assert(sv.take(i + 1).drop_last() =~= sv.take(i as int));
        assert(sv.take(i + 1).last() == sv[i as int]);
        let cs = &shots[i].characters;
        let n = shots[i].shot;
        let ghost cv = strs(cs@);
        assert(sv[i as int].characters == cv);
        assert(cv.take(0) =~= Seq::<Seq<char>>::empty());
        assert(before + Seq::<(u32, Seq<char>)>::empty() =~= before);
        let mut j: usize = 0;
        while j < cs.len()
            invariant
                j <= cs@.len(),
                cv == strs(cs@),
                names == strs(roster_names@),
                out@.map_values(|x: (u32, String)| (x.0, x.1@)) == before + shot_unknown(n, cv.take(j as int), names),
            decreases cs.len() - j,
        {
            assert(cv.take(j + 1).drop_last() =~= cv.take(j as int));
            assert(cv.take(j + 1).last() == cv[j as int]);
            let nc = chars_of(cs[j].as_str());
            if !contains_string(roster_names, &nc) {
                let ghost prev = out@;
                out.push((n, cs[j].clone()));
                assert(out@.map_values(|x: (u32, String)| (x.0, x.1@)) =~= prev.map_values(
                    |x: (u32, String)| (x.0, x.1@),
                ).push((n, cv[j as int])));
            }
            j = j + 1;
        }
        assert(cv.take(cs@.len() as int) =~= cv);
        i = i + 1;
    }
    assert(sv.take(shots@.len() as int) =~= sv);
    out
}

} // verus!
