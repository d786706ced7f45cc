//! The rules of a hub's `ownership.json` (who owns which section and which
//! casting object), and the reading of counts in the model's extraction.
use vstd::prelude::*;
use crate::hub::{casting_types, is_casting_type};
use crate::paths::{is_slug_like, slug_like};
use crate::text::{
    blank, chars_of, is_blank, parse_u64, parse_u64_chars, rstrip, rstrip_index, split_once,
    split_once_strings, str_eq, strip_range, trim, CharSet,
};

verus! {

/// The five README stages, which are also the sections one can own.
pub open spec fn hub_stages() -> Seq<Seq<char>> {
    seq!["story"@, "storyboard"@, "casting"@, "audio"@, "compose"@]
}

/// Whether a key names a stage.
pub fn is_hub_stage(k: &str) -> (b: bool)
    ensures
        b == hub_stages().contains(k@),
{
    let b = str_eq(k, "story") || str_eq(k, "storyboard") || str_eq(k, "casting") || str_eq(k, "audio")
        || str_eq(k, "compose");
    if b {
        assert(hub_stages().contains(k@)) by {
            if k@ == "story"@ {
                assert(hub_stages()[0] == k@);
            } else if k@ == "storyboard"@ {
                assert(hub_stages()[1] == k@);
            } else if k@ == "casting"@ {
                assert(hub_stages()[2] == k@);
            } else if k@ == "audio"@ {
                assert(hub_stages()[3] == k@);
            } else {
                assert(hub_stages()[4] == k@);
            }
        }
    }
    b
}

/// What is wrong with a `sections` key: it must name a stage.
pub open spec fn section_key_problem(k: Seq<char>) -> Option<Seq<char>> {
    if hub_stages().contains(k) {
        None
    } else {
        Some(
            "sections 键「"@ + k
                + "」不在枚举 [\"story\", \"storyboard\", \"casting\", \"audio\", \"compose\"] 之内"@,
        )
    }
}

/// Checks a `sections` key (see [`section_key_problem`]).
pub fn check_section_key(k: &str) -> (r: Option<String>)
    ensures
        match (r, section_key_problem(k@)) {
            (Some(m), Some(w)) => m@ == w,
            (None, None) => true,
            _ => false,
        },
{
    if is_hub_stage(k) {
        None
    } else {
        let mut m = String::new();
        m.append("sections 键「");
        m.append(k);
        m.append("」不在枚举 [\"story\", \"storyboard\", \"casting\", \"audio\", \"compose\"] 之内");
        Some(m)
    }
}

/// What is wrong with a `casting_objects` key: it must be `<type>/<name>`
/// with a casting class as type and a slug-like name.
pub open spec fn object_key_problem(k: Seq<char>) -> Option<Seq<char>> {
    match split_once(k, '/') {
        None => Some("casting_objects 键「"@ + k + "」须为 <type>/<name> 路径形态"@),
        Some((ty, name)) => if !casting_types().contains(ty) {
            Some(
                "casting_objects 键「"@ + k
                    + "」的 type 不在枚举 [\"characters\", \"props\", \"pets\", \"formations\", \"actions\", \"scenes\"] 之内"@,
            )
        } else if !slug_like(name) {
            Some("casting_objects 键「"@ + k + "」的 name 须为 slug 形态（字母数字/-/_，≤64 字符）"@)
        } else {
            None
        },
    }
}

/// Checks a `casting_objects` key (see [`object_key_problem`]).
pub fn check_object_key(k: &str) -> (r: Option<String>)
    ensures
        match (r, object_key_problem(k@)) {
            (Some(m), Some(w)) => m@ == w,
            (None, None) => true,
            _ => false,
        },
{
    let mut m = String::new();
    m.append("casting_objects 键「");
    m.append(k);
    match split_once_strings(k, '/') {
        None => {
            m.append("」须为 <type>/<name> 路径形态");
            Some(m)
        },
        Some((ty, name)) => {
            if !is_casting_type(ty.as_str()) {
                m.append(
                    "」的 type 不在枚举 [\"characters\", \"props\", \"pets\", \"formations\", \"actions\", \"scenes\"] 之内",
                );
                Some(m)
            } else if !is_slug_like(name.as_str()) {
                m.append("」的 name 须为 slug 形态（字母数字/-/_，≤64 字符）");
                Some(m)
            } else {
                None
            }
        },
    }
}

/// What is wrong with an owner (or a member name) found under `label`: it
/// must be a string that is not blank and holds no `/`.
pub open spec fn owner_problem(owner: Option<Seq<char>>, label: Seq<char>) -> Option<Seq<char>> {
    match owner {
        Some(o) => if is_blank(o) {
            Some(label + " 须为非空字符串"@)
        } else if o.contains('/') {
            Some(label + " 不可含路径分隔符"@)
        } else {
            None
        },
        None => Some(label + " 须为非空字符串"@),
    }
}

fn has_slash(s: &str) -> (b: bool)
    ensures
        b == s@.contains('/'),
{
    let v = chars_of(s);
    let mut i: usize = 0;
    while i < v.len()
        invariant
            i <= v.len(),
            v@ == s@,
            forall|j: int| 0 <= j < i ==> v@[j] != '/',
        decreases v.len() - i,
    {
        if v[i] == '/' {
            assert(s@[i as int] == '/');
            return true;
        }
        i = i + 1;
    }
    false
}

/// Checks an owner or member name found under `label` (such as
/// `sections.story.owner` or `members[].name`); see [`owner_problem`].
pub fn check_owner(owner: Option<&str>, label: &str) -> (r: Option<String>)
    ensures
        match (r, owner_problem(crate::media::opt_str_view(owner), label@)) {
            (Some(m), Some(w)) => m@ == w,
            (None, None) => true,
            _ => false,
        },
{
    match owner {
        Some(o) => {
            if blank(o) {
                let mut m = String::from_str(label);
                m.append(" 须为非空字符串");
                Some(m)
            } else if has_slash(o) {
                let mut m = String::from_str(label);
                m.append(" 不可含路径分隔符");
                Some(m)
            } else {
                None
            }
        },
        None => {
            let mut m = String::from_str(label);
            m.append(" 须为非空字符串");
            Some(m)
        },
    }
}

/// A field of `ownership.json` as its JSON shape gives it.
pub enum OwnershipField<T> {
    /// The field is missing.
    Absent,
    /// The field is there but not of the container type it must have.
    WrongType,
    /// The field's items, in document order.
    Items(Vec<T>),
}

/// An `ownership.json` document as far as its checks read it: whether it is
/// an object; each member's `name` (when it is a string); each section's key
/// and `owner` (when it is a string); each casting object's key and `owner`.
pub struct OwnershipDoc {
    pub is_object: bool,
    pub members: OwnershipField<Option<String>>,
    pub sections: OwnershipField<(String, Option<String>)>,
    pub casting_objects: OwnershipField<(String, Option<String>)>,
}

/// The text of an optional string.
pub open spec fn opt_text(o: Option<String>) -> Option<Seq<char>> {
    match o {
        Some(s) => Some(s@),
        None => None,
    }
}

/// The first problem among member names.
pub open spec fn members_problem(names: Seq<Option<String>>) -> Option<Seq<char>>
    decreases names.len(),
{
    if names.len() == 0 {
        None
    } else {
        match owner_problem(opt_text(names[0]), "members[].name"@) {
            Some(m) => Some(m),
            None => members_problem(names.drop_first()),
        }
    }
}

/// What is wrong with one section entry: its key, else its owner.
pub open spec fn section_problem(e: (String, Option<String>)) -> Option<Seq<char>> {
    match section_key_problem(e.0@) {
        Some(m) => Some(m),
        None => owner_problem(opt_text(e.1), "sections."@ + e.0@ + ".owner"@),
    }
}

/// What is wrong with one casting object entry: its key, else its owner.
pub open spec fn object_problem(e: (String, Option<String>)) -> Option<Seq<char>> {
    match object_key_problem(e.0@) {
        Some(m) => Some(m),
        None => owner_problem(opt_text(e.1), "casting_objects[\""@ + e.0@ + "\"].owner"@),
    }
}

/// The first problem among section entries.
pub open spec fn sections_problem(es: Seq<(String, Option<String>)>) -> Option<Seq<char>>
    decreases es.len(),
{
    if es.len() == 0 {
        None
    } else {
        match section_problem(es[0]) {
            Some(m) => Some(m),
            None => sections_problem(es.drop_first()),
        }
    }
}

/// The first problem among casting object entries.
pub open spec fn objects_problem(es: Seq<(String, Option<String>)>) -> Option<Seq<char>>
    decreases es.len(),
{
    if es.len() == 0 {
        None
    } else {
        match object_problem(es[0]) {
            Some(m) => Some(m),
            None => objects_problem(es.drop_first()),
        }
    }
}

/// The first problem of an `ownership.json` document: it must be an object;
/// `members`, when present, an array of non-blank names without `/`;
/// `sections`, when present, an object keyed by stages with valid owners;
/// `casting_objects`, when present, an object keyed `<type>/<slug>` with
/// valid owners. The fields are checked in that order.
pub open spec fn ownership_problem(d: OwnershipDoc) -> Option<Seq<char>> {
    if !d.is_object {
        Some("ownership.json 须为 JSON 对象"@)
    } else {
        let m = match d.members {
            OwnershipField::Absent => None,
            OwnershipField::WrongType => Some("members 须为数组"@),
            OwnershipField::Items(v) => members_problem(v@),
        };
        let s = match d.sections {
            OwnershipField::Absent => None,
            OwnershipField::WrongType => Some("sections 须为对象"@),
            OwnershipField::Items(v) => sections_problem(v@),
        };
        let o = match d.casting_objects {
            OwnershipField::Absent => None,
            OwnershipField::WrongType => Some("casting_objects 须为对象"@),
            OwnershipField::Items(v) => objects_problem(v@),
        };
        if m is Some {
            m
        } else if s is Some {
            s
        } else {
            o
        }
    }
}

fn opt_str(o: &Option<String>) -> (r: Option<&str>)
    ensures
        crate::media::opt_str_view(r) == opt_text(*o),
{
    match o {
        Some(s) => Some(s.as_str()),
        None => None,
    }
}

fn check_members(v: &Vec<Option<String>>) -> (r: Option<String>)
    ensures
        match (r, members_problem(v@)) {
            (Some(m), Some(w)) => m@ == w,
            (None, None) => true,
            _ => false,
        },
{
    let mut i: usize = 0;
    assert(v@.skip(0) =~= v@);
    while i < v.len()
        invariant
            i <= v.len(),
            members_problem(v@) == members_problem(v@.skip(i as int)),
        decreases v.len() - i,
    {
        assert(v@.skip(i as int).drop_first() =~= v@.skip(i + 1));
        assert(v@.skip(i as int)[0] == v@[i as int]);
        if let Some(m) = check_owner(opt_str(&v[i]), "members[].name") {
            proof {
                reveal_strlit("members[].name");
            }
            return Some(m);
        }
        proof {
            reveal_strlit("members[].name");
        }
        i = i + 1;
    }
    assert(v@.skip(i as int) =~= Seq::<Option<String>>::empty());
    None
}

fn check_sections(v: &Vec<(String, Option<String>)>) -> (r: Option<String>)
    ensures
        match (r, sections_problem(v@)) {
            (Some(m), Some(w)) => m@ == w,
            (None, None) => true,
            _ => false,
        },
{
    let mut i: usize = 0;
    assert(v@.skip(0) =~= v@);
    while i < v.len()
        invariant
            i <= v.len(),
            sections_problem(v@) == sections_problem(v@.skip(i as int)),
        decreases v.len() - i,
    {
        assert(v@.skip(i as int).drop_first() =~= v@.skip(i + 1));
        assert(v@.skip(i as int)[0] == v@[i as int]);
        let (k, o) = &v[i];
        if let Some(m) = check_section_key(k.as_str()) {
            return Some(m);
        }
        let mut label = String::from_str("sections.");
        label.append(k.as_str());
        label.append(".owner");
        if let Some(m) = check_owner(opt_str(o), label.as_str()) {
            return Some(m);
        }
        i = i + 1;
    }
    assert(v@.skip(i as int) =~= Seq::<(String, Option<String>)>::empty());
    None
}

fn check_objects(v: &Vec<(String, Option<String>)>) -> (r: Option<String>)
    ensures
        match (r, objects_problem(v@)) {
            (Some(m), Some(w)) => m@ == w,
            (None, None) => true,
            _ => false,
        },
{
    let mut i: usize = 0;
    assert(v@.skip(0) =~= v@);
    while i < v.len()
        invariant
            i <= v.len(),
            objects_problem(v@) == objects_problem(v@.skip(i as int)),
        decreases v.len() - i,
    {
        assert(v@.skip(i as int).drop_first() =~= v@.skip(i + 1));
        assert(v@.skip(i as int)[0] == v@[i as int]);
        let (k, o) = &v[i];
        if let Some(m) = check_object_key(k.as_str()) {
            return Some(m);
        }
        let mut label = String::from_str("casting_objects[\"");
        label.append(k.as_str());
        label.append("\"].owner");
        if let Some(m) = check_owner(opt_str(o), label.as_str()) {
            return Some(m);
        }
        i = i + 1;
    }
    assert(v@.skip(i as int) =~= Seq::<(String, Option<String>)>::empty());
    None
}

/// Checks an `ownership.json` document (see [`ownership_problem`]): `Ok`
/// exactly when it has no problem, else the first problem.
pub fn validate_ownership(d: &OwnershipDoc) -> (r: Result<(), String>)
    ensures
        match (r, ownership_problem(*d)) {
            (Ok(()), None) => true,
            (Err(m), Some(w)) => m@ == w,
            _ => false,
        },
{
    if !d.is_object {
        return Err(String::from_str("ownership.json 须为 JSON 对象"));
    }
    match &d.members {
        OwnershipField::Absent => {},
        OwnershipField::WrongType => return Err(String::from_str("members 须为数组")),
        OwnershipField::Items(v) => {
            if let Some(m) = check_members(v) {
                return Err(m);
            }
        },
    }
    match &d.sections {
        OwnershipField::Absent => {},
        OwnershipField::WrongType => return Err(String::from_str("sections 须为对象")),
        OwnershipField::Items(v) => {
            if let Some(m) = check_sections(v) {
                return Err(m);
            }
        },
    }
    match &d.casting_objects {
        OwnershipField::Absent => {},
        OwnershipField::WrongType => return Err(String::from_str("casting_objects 须为对象")),
        OwnershipField::Items(v) => {
            if let Some(m) = check_objects(v) {
                return Err(m);
            }
        },
    }
    Ok(())
}

/// A count the model wrote as text: trimmed, a trailing `次` dropped.
pub open spec fn frequency_text(s: Seq<char>) -> Option<u64> {
    parse_u64(rstrip(trim(s), CharSet::One('次')))
}

/// Reads a count the model wrote as text (such as `2次`).
pub fn parse_frequency(s: &str) -> (r: Option<u64>)
    ensures
        r == frequency_text(s@),
{
    let v = chars_of(s);
    assert(v@.subrange(0, v@.len() as int) =~= v@);
    let (a, b) = strip_range(&v, 0, v.len(), &CharSet::Space);
    let b2 = rstrip_index(&v, a, b, &CharSet::One('次'));
    parse_u64_chars(&v, a, b2)
}

} // verus!
