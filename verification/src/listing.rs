//! What the listing endpoints return: the shots each character appears in
//! and the project's artifacts, merged from the directories that hold them
//! and ordered by name.
use vstd::prelude::*;
use crate::doc::{key_less, key_lt};
use crate::model::{FilmProject, ScriptShot, ShotModel, shot_views};
use crate::paths::{hub_root, hub_root_of};
use crate::text::{
    blank, chars_eq, chars_of, is_blank, rfind_char, rfind_char_in, str_eq, string_of_range, strs,
    trim, trimmed,
};

verus! {

/// Whether shot `s` names the character `name`.
pub open spec fn names(s: ShotModel, name: Seq<char>) -> bool {
    s.characters.contains(name)
}

/// Strictly increasing numbers.
pub open spec fn strictly_increasing(v: Seq<u32>) -> bool {
    forall|a: int, b: int| 0 <= a < b < v.len() ==> #[trigger] v[a] < #[trigger] v[b]
}

/// Whether `n` is the number of a shot naming `name`.
pub open spec fn bound_to(shots: Seq<ShotModel>, name: Seq<char>, n: u32) -> bool {
    exists|i: int| 0 <= i < shots.len() && names(#[trigger] shots[i], name) && shots[i].shot == n
}

fn names_character(characters: &Vec<String>, name: &Vec<char>) -> (b: bool)
    ensures
        b == strs(characters@).contains(name@),
{
    let mut i: usize = 0;
    while i < characters.len()
        invariant
            i <= characters@.len(),
            forall|j: int| 0 <= j < i ==> #[trigger] characters@[j]@ != name@,
        decreases characters.len() - i,
    {
        let c = chars_of(characters[i].as_str());
        if chars_eq(&c, name) {
            assert(strs(characters@)[i as int] == name@);
            return true;
        }
        i = i + 1;
    }
    proof {
        if strs(characters@).contains(name@) {
            let j = strs(characters@).index_of(name@);
            assert(characters@[j]@ == name@);
        }
    }
    false
}

/// Adds `n` to a strictly increasing vector, keeping it so.
fn insert_number(v: &mut Vec<u32>, n: u32)
    requires
        strictly_increasing(old(v)@),
    ensures
        strictly_increasing(final(v)@),
        forall|x: u32| #[trigger] final(v)@.contains(x) <==> (old(v)@.contains(x) || x == n),
{
    let ghost s = v@;
    let mut j: usize = 0;
    while j < v.len() && v[j] < n
        invariant
            j <= v@.len(),
            v@ == s,
            forall|t: int| 0 <= t < j ==> #[trigger] s[t] < n,
        decreases v.len() - j,
    {
        j = j + 1;
    }
    if j < v.len() && v[j] == n {
        return;
    }
    v.insert(j, n);
    proof {
        let r = v@;
        assert(r == s.insert(j as int, n));
        assert forall|a: int, b: int| 0 <= a < b < r.len() implies #[trigger] r[a] < #[trigger] r[b] by {
            if b < j {
            } else if a < j && b == j {
            } else if a < j {
                assert(r[b] == s[b - 1]);
                assert(s[a] < s[b - 1]);
            } else if a == j {
                assert(r[b] == s[b - 1]);
                assert(j < s.len() ==> s[j as int] > n);
                if b - 1 > j {
                    assert(s[j as int] < s[b - 1]);
                }
            } else {
                assert(r[a] == s[a - 1]);
                assert(r[b] == s[b - 1]);
            }
        }
        assert forall|x: u32| #[trigger] r.contains(x) <==> (s.contains(x) || x == n) by {
            if r.contains(x) {
                let i = r.index_of(x);
                if i < j {
                    assert(s[i] == x);
                } else if i > j {
                    assert(s[i - 1] == x);
                }
            }
            if s.contains(x) {
                let i = s.index_of(x);
                if i < j {
                    assert(r[i] == x);
                } else {
                    assert(r[i + 1] == x);
                }
            }
            if x == n {
                assert(r[j as int] == n);
            }
        }
    }
}

/// The numbers of the shots naming the character `name`, each once, in
/// increasing order.
pub fn shots_naming(shots: &Vec<ScriptShot>, name: &str) -> (r: Vec<u32>)
    ensures
        strictly_increasing(r@),
        forall|n: u32| #[trigger] r@.contains(n) <==> bound_to(shot_views(shots@), name@, n),
{
    let ghost sv = shot_views(shots@);
    let nv = chars_of(name);
    let mut out: Vec<u32> = Vec::new();
    let mut i: usize = 0;
    while i < shots.len()
        invariant
            i <= shots@.len(),
            sv == shot_views(shots@),
            sv.len() == shots@.len(),
            forall|k: int| 0 <= k < shots@.len() ==> #[trigger] sv[k] == shots@[k]@,
            nv@ == name@,
            strictly_increasing(out@),
            forall|n: u32| #[trigger] out@.contains(n) <==> bound_to(sv.take(i as int), name@, n),
        decreases shots.len() - i,
    {
        let ghost before = out@;
        if names_character(&shots[i].characters, &nv) {
            insert_number(&mut out, shots[i].shot);
        }
        proof {
            let p = sv.take(i as int);
            let q = sv.take(i + 1);
            assert forall|n: u32| #[trigger] out@.contains(n) <==> bound_to(q, name@, n) by {
                if bound_to(q, name@, n) {
                    let k = choose|k: int| 0 <= k < q.len() && names(#[trigger] q[k], name@) && q[k].shot == n;
                    if k < i {
                        assert(p[k] == q[k]);
                        assert(bound_to(p, name@, n));
                    }
                }
                if bound_to(p, name@, n) {
                    let k = choose|k: int| 0 <= k < p.len() && names(#[trigger] p[k], name@) && p[k].shot == n;
                    assert(q[k] == p[k]);
                }
                if out@.contains(n) && !before.contains(n) {
                    assert(q[i as int] == sv[i as int]);
                }
            }
        }
        i = i + 1;
    }
    assert(sv.take(shots@.len() as int) =~= sv);
    out
}

/// A file found in a directory: its name and size.
#[derive(Debug, Clone)]
pub struct FileEntry {
    pub name: String,
    pub bytes: u64,
}

fn copy_entry(e: &FileEntry) -> (r: FileEntry)
    ensures
        r == *e,
{
    FileEntry { name: e.name.clone(), bytes: e.bytes }
}

/// A name starting with `_`: a placeholder the hub keeps for itself.
pub open spec fn placeholder(name: Seq<char>) -> bool {
    name.len() > 0 && name[0] == '_'
}

/// The entries whose name differs from `n`.
pub open spec fn without_name(s: Seq<FileEntry>, n: Seq<char>) -> Seq<FileEntry>
    decreases s.len(),
{
    if s.len() == 0 {
        seq![]
    } else if s.last().name@ == n {
        without_name(s.drop_last(), n)
    } else {
        without_name(s.drop_last(), n).push(s.last())
    }
}

/// The list after the files of one more directory: each file that is not
/// a placeholder replaces the entry of the same name and goes last.
pub open spec fn merge_dir(out: Seq<FileEntry>, dir: Seq<FileEntry>) -> Seq<FileEntry>
    decreases dir.len(),
{
    if dir.len() == 0 {
        out
    } else {
        let o = merge_dir(out, dir.drop_last());
        let e = dir.last();
        if placeholder(e.name@) {
            o
        } else {
            without_name(o, e.name@).push(e)
        }
    }
}

/// The list after the files of each directory in turn.
pub open spec fn merge_dirs(out: Seq<FileEntry>, dirs: Seq<Seq<FileEntry>>) -> Seq<FileEntry>
    decreases dirs.len(),
{
    if dirs.len() == 0 {
        out
    } else {
        merge_dir(merge_dirs(out, dirs.drop_last()), dirs.last())
    }
}

/// `x` placed after the last entry whose name is not above its own.
pub open spec fn insert_by_name(s: Seq<FileEntry>, x: FileEntry) -> Seq<FileEntry>
    decreases s.len(),
{
    if s.len() == 0 {
        seq![x]
    } else if key_lt(x.name@, s.last().name@) {
        insert_by_name(s.drop_last(), x).push(s.last())
    } else {
        s.push(x)
    }
}

/// The entries stably sorted by name.
pub open spec fn sort_by_name(s: Seq<FileEntry>) -> Seq<FileEntry>
    decreases s.len(),
{
    if s.len() == 0 {
        seq![]
    } else {
        insert_by_name(sort_by_name(s.drop_last()), s.last())
    }
}

/// The artifacts of a project: the files of its directory, then those of
/// each output directory merged in, ordered by name.
pub open spec fn artifact_list(base: Seq<FileEntry>, dirs: Seq<Seq<FileEntry>>) -> Seq<FileEntry> {
    sort_by_name(merge_dirs(base, dirs))
}

fn insert_named(out: &mut Vec<FileEntry>, x: FileEntry)
    ensures
        final(out)@ == insert_by_name(old(out)@, x),
{
    let xk = chars_of(x.name.as_str());
    let mut j = out.len();
    let ghost s = out@;
    assert(s.take(s.len() as int) =~= s);
    assert(s.skip(s.len() as int) =~= Seq::<FileEntry>::empty());
    while j > 0
        invariant
            j <= s.len(),
            out@ == s,
            xk@ == x.name@,
            insert_by_name(s, x) == insert_by_name(s.take(j as int), x) + s.skip(j as int),
        ensures
            j <= s.len(),
            out@ == s,
            insert_by_name(s, x) == insert_by_name(s.take(j as int), x) + s.skip(j as int),
            j == 0 || !key_lt(x.name@, s[j - 1].name@),
        decreases j,
    {
        let kc = chars_of(out[j - 1].name.as_str());
        if !key_less(&xk, &kc) {
            break;
        }
        proof {
            let t = s.take(j as int);
            assert(t.drop_last() =~= s.take(j - 1));
            assert(t.last() == s[j - 1]);
            assert(insert_by_name(t, x) == insert_by_name(s.take(j - 1), x).push(s[j - 1]));
            assert(insert_by_name(s.take(j - 1), x).push(s[j - 1]) + s.skip(j as int)
                =~= insert_by_name(s.take(j - 1), x) + s.skip(j - 1));
        }
        j = j - 1;
    }
    proof {
        let t = s.take(j as int);
        if j > 0 {
            assert(t.last() == s[j - 1]);
        }
        assert(insert_by_name(t, x) == t.push(x));
        assert(t.push(x) + s.skip(j as int) =~= s.insert(j as int, x));
    }
    out.insert(j, x);
}

fn drop_name(v: &Vec<FileEntry>, n: &Vec<char>) -> (r: Vec<FileEntry>)
    ensures
        r@ == without_name(v@, n@),
{
    let mut kept: Vec<FileEntry> = Vec::new();
    let mut i: usize = 0;
    assert(v@.take(0) =~= Seq::<FileEntry>::empty());
    while i < v.len()
        invariant
            i <= v@.len(),
            kept@ == without_name(v@.take(i as int), n@),
        decreases v.len() - i,
    {
        assert(v@.take(i + 1).drop_last() =~= v@.take(i as int));
        assert(v@.take(i + 1).last() == v@[i as int]);
        let c = chars_of(v[i].name.as_str());
        if !chars_eq(&c, n) {
            kept.push(copy_entry(&v[i]));
        }
        i = i + 1;
    }
    assert(v@.take(v@.len() as int) =~= v@);
    kept
}

/// The artifacts of a project (see [`artifact_list`]).
pub fn merge_artifacts(base: &Vec<FileEntry>, dirs: &Vec<Vec<FileEntry>>) -> (r: Vec<FileEntry>)
    ensures
        r@ == artifact_list(base@, dirs@.map_values(|d: Vec<FileEntry>| d@)),
{
    let ghost ds = dirs@.map_values(|d: Vec<FileEntry>| d@);
    let mut out: Vec<FileEntry> = Vec::new();
    let mut i: usize = 0;
    while i < base.len()
        invariant
            i <= base@.len(),
            out@ == base@.take(i as int),
        decreases base.len() - i,
    {
        out.push(copy_entry(&base[i]));
        assert(out@ =~= base@.take(i + 1));
        i = i + 1;
    }
    assert(base@.take(base@.len() as int) =~= base@);
    let mut d: usize = 0;
    assert(ds.take(0) =~= Seq::<Seq<FileEntry>>::empty());
    while d < dirs.len()
        invariant
            d <= dirs@.len(),
            ds == dirs@.map_values(|d: Vec<FileEntry>| d@),
            out@ == merge_dirs(base@, ds.take(d as int)),
        decreases dirs.len() - d,
    {
        let ghost start = out@;
        let dir = &dirs[d];
        let mut k: usize = 0;
        assert(dir@.take(0) =~= Seq::<FileEntry>::empty());
        while k < dir.len()
            invariant
                k <= dir@.len(),
                out@ == merge_dir(start, dir@.take(k as int)),
            decreases dir.len() - k,
        {
            assert(dir@.take(k + 1).drop_last() =~= dir@.take(k as int));
            assert(dir@.take(k + 1).last() == dir@[k as int]);
            let nv = chars_of(dir[k].name.as_str());
            if !(nv.len() > 0 && nv[0] == '_') {
                let kept = drop_name(&out, &nv);
                out = kept;
                out.push(copy_entry(&dir[k]));
            }
            k = k + 1;
        }
        assert(dir@.take(dir@.len() as int) =~= dir@);
        assert(ds.take(d + 1).drop_last() =~= ds.take(d as int));
        assert(ds.take(d + 1).last() == dir@);
        d = d + 1;
    }
    assert(ds.take(ds.len() as int) =~= ds);
    let ghost all = out@;
    let mut sorted: Vec<FileEntry> = Vec::new();
    let mut k: usize = 0;
    assert(all.take(0) =~= Seq::<FileEntry>::empty());
    while k < out.len()
        invariant
            k <= out@.len(),
            out@ == all,
            sorted@ == sort_by_name(all.take(k as int)),
        decreases out.len() - k,
    {
        assert(all.take(k + 1).drop_last() =~= all.take(k as int));
        assert(all.take(k + 1).last() == all[k as int]);
        insert_named(&mut sorted, copy_entry(&out[k]));
        k = k + 1;
    }
    assert(all.take(all.len() as int) =~= all);
    sorted
}

/// The directories whose files join a project's artifacts: the export
/// directory, when set (trimmed, not blank) and other than the project
/// directory; then the hub's `dist`.
pub open spec fn artifact_dirs_of(p: FilmProject) -> Seq<Seq<char>> {
    let dist = hub_root_of(p.dir@) + "/dist"@;
    match p.export_dir {
        Some(e) => if !is_blank(e@) && trim(e@) != p.dir@ {
            seq![trim(e@), dist]
        } else {
            seq![dist]
        },
        None => seq![dist],
    }
}

/// The directories whose files join a project's artifacts (see [`artifact_dirs_of`]).
pub fn artifact_dirs(project: &FilmProject) -> (r: Vec<String>)
    ensures
        strs(r@) == artifact_dirs_of(*project),
{
    let mut r: Vec<String> = Vec::new();
    if let Some(e) = &project.export_dir {
        if !blank(e.as_str()) {
            let t = trimmed(e.as_str());
            if !str_eq(t.as_str(), project.dir.as_str()) {
                r.push(t);
            }
        }
    }
    let mut dist = hub_root(project);
    dist.append("/dist");
    r.push(dist);
    proof {
        assert(strs(r@) =~= artifact_dirs_of(*project));
    }
    r
}

/// A view of a casting object: the file's stem, the file name and its size.
#[derive(Debug, Clone)]
pub struct ViewFile {
    pub stem: String,
    pub file: String,
    pub bytes: u64,
}

/// The value of a view: stem, file name and size.
pub open spec fn view_value(v: ViewFile) -> (Seq<char>, Seq<char>, u64) {
    (v.stem@, v.file@, v.bytes)
}

/// The values of a list of views.
pub open spec fn view_values(s: Seq<ViewFile>) -> Seq<(Seq<char>, Seq<char>, u64)> {
    s.map_values(|v: ViewFile| view_value(v))
}

/// The order of views: by stem, then file name, then size.
pub open spec fn view_lt(a: (Seq<char>, Seq<char>, u64), b: (Seq<char>, Seq<char>, u64)) -> bool {
    key_lt(a.0, b.0) || (a.0 == b.0 && (key_lt(a.1, b.1) || (a.1 == b.1 && a.2 < b.2)))
}

/// The views among the files, in the order the files come: a file's stem
/// is its name up to the last `.`; a file without a `.` is no view.
pub open spec fn views_in(files: Seq<FileEntry>) -> Seq<(Seq<char>, Seq<char>, u64)>
    decreases files.len(),
{
    if files.len() == 0 {
        seq![]
    } else {
        let rest = views_in(files.drop_last());
        let e = files.last();
        match rfind_char(e.name@, '.') {
            Some(k) => rest.push((e.name@.take(k), e.name@, e.bytes)),
            None => rest,
        }
    }
}

/// `x` placed after the last view that is not above it.
pub open spec fn insert_view(s: Seq<(Seq<char>, Seq<char>, u64)>, x: (Seq<char>, Seq<char>, u64)) -> Seq<
    (Seq<char>, Seq<char>, u64),
>
    decreases s.len(),
{
    if s.len() == 0 {
        seq![x]
    } else if view_lt(x, s.last()) {
        insert_view(s.drop_last(), x).push(s.last())
    } else {
        s.push(x)
    }
}

/// The views sorted.
pub open spec fn sort_views(s: Seq<(Seq<char>, Seq<char>, u64)>) -> Seq<(Seq<char>, Seq<char>, u64)>
    decreases s.len(),
{
    if s.len() == 0 {
        seq![]
    } else {
        insert_view(sort_views(s.drop_last()), s.last())
    }
}

fn view_less(a: &ViewFile, b: &ViewFile) -> (r: bool)
    ensures
        r == view_lt(view_value(*a), view_value(*b)),
{
    let a0 = chars_of(a.stem.as_str());
    let b0 = chars_of(b.stem.as_str());
    if key_less(&a0, &b0) {
        return true;
    }
    if !chars_eq(&a0, &b0) {
        return false;
    }
    let a1 = chars_of(a.file.as_str());
    let b1 = chars_of(b.file.as_str());
    if key_less(&a1, &b1) {
        return true;
    }
    chars_eq(&a1, &b1) && a.bytes < b.bytes
}

fn insert_view_file(out: &mut Vec<ViewFile>, x: ViewFile)
    ensures
        view_values(final(out)@) == insert_view(view_values(old(out)@), view_value(x)),
{
    let mut j = out.len();
    let ghost s = view_values(out@);
    let ghost xv = view_value(x);
    let ghost o = out@;
    assert(s.take(s.len() as int) =~= s);
    assert(s.skip(s.len() as int) =~= Seq::<(Seq<char>, Seq<char>, u64)>::empty());
    while j > 0
        invariant
            j <= s.len(),
            s.len() == o.len(),
            out@ == o,
            s == view_values(o),
            xv == view_value(x),
            insert_view(s, xv) == insert_view(s.take(j as int), xv) + s.skip(j as int),
        ensures
            j <= s.len(),
            out@ == o,
            insert_view(s, xv) == insert_view(s.take(j as int), xv) + s.skip(j as int),
            j == 0 || !view_lt(xv, s[j - 1]),
        decreases j,
    {
        assert(s[j - 1] == view_value(o[j - 1]));
        if !view_less(&x, &out[j - 1]) {
            break;
        }
        proof {
            let t = s.take(j as int);
            assert(t.drop_last() =~= s.take(j - 1));
            assert(t.last() == s[j - 1]);
            assert(insert_view(t, xv) == insert_view(s.take(j - 1), xv).push(s[j - 1]));
            assert(insert_view(s.take(j - 1), xv).push(s[j - 1]) + s.skip(j as int)
                =~= insert_view(s.take(j - 1), xv) + s.skip(j - 1));
        }
        j = j - 1;
    }
    proof {
        let t = s.take(j as int);
        if j > 0 {
            assert(t.last() == s[j - 1]);
        }
        assert(insert_view(t, xv) == t.push(xv));
        assert(t.push(xv) + s.skip(j as int) =~= s.insert(j as int, xv));
    }
    out.insert(j, x);
    assert(view_values(out@) =~= s.insert(j as int, xv));
}

/// The views of a casting object among the files of its `views` directory,
/// sorted (see [`views_in`] and [`view_lt`]).
pub fn view_files(files: &Vec<FileEntry>) -> (r: Vec<ViewFile>)
    ensures
        view_values(r@) == sort_views(views_in(files@)),
{
    let mut found: Vec<ViewFile> = Vec::new();
    let mut i: usize = 0;
    assert(files@.take(0) =~= Seq::<FileEntry>::empty());
    assert(view_values(found@) =~= Seq::<(Seq<char>, Seq<char>, u64)>::empty());
    while i < files.len()
        invariant
            i <= files@.len(),
            view_values(found@) == views_in(files@.take(i as int)),
        decreases files.len() - i,
    {
        assert(files@.take(i + 1).drop_last() =~= files@.take(i as int));
        assert(files@.take(i + 1).last() == files@[i as int]);
        let v = chars_of(files[i].name.as_str());
        match rfind_char_in(&v, v.len(), '.') {
            Some(k) => {
                assert(v@.take(v@.len() as int) =~= v@);
                let ghost before = found@;
                found.push(ViewFile {
                    stem: string_of_range(&v, 0, k),
                    file: files[i].name.clone(),
                    bytes: files[i].bytes,
                });
                assert(v@.subrange(0, k as int) =~= v@.take(k as int));
                assert(view_values(found@) =~= view_values(before).push(view_value(found@.last())));
            },
            None => {
                assert(v@.take(v@.len() as int) =~= v@);
            },
        }
        i = i + 1;
    }
    assert(files@.take(files@.len() as int) =~= files@);
    let ghost all = view_values(found@);
    let mut sorted: Vec<ViewFile> = Vec::new();
    let mut k: usize = 0;
    assert(all.take(0) =~= Seq::<(Seq<char>, Seq<char>, u64)>::empty());
    assert(view_values(sorted@) =~= Seq::<(Seq<char>, Seq<char>, u64)>::empty());
    while k < found.len()
        invariant
            k <= found@.len(),
            all == view_values(found@),
            all.len() == found@.len(),
            view_values(sorted@) == sort_views(all.take(k as int)),
        decreases found.len() - k,
    {
        assert(all.take(k + 1).drop_last() =~= all.take(k as int));
        assert(all.take(k + 1).last() == all[k as int]);
        let x = ViewFile { stem: found[k].stem.clone(), file: found[k].file.clone(), bytes: found[k].bytes };
        insert_view_file(&mut sorted, x);
        k = k + 1;
    }
    assert(all.take(all.len() as int) =~= all);
    sorted
}

} // verus!
