//! What creating and editing a casting object or a BGM track decides: the
//! card written and the slug (directory) it lives under, or why the request
//! is refused.
use vstd::prelude::*;
use crate::hub::{trigger_error, trigger_of, validate_trigger, CastingCard};
use crate::model::{ScriptShot, ShotModel, shot_views};
use crate::paths::{author, author_of, is_slug_like, slug, slug_like, slugify};
use crate::text::{
    blank, chars_eq, chars_of, contains, dec, is_blank, occurs_at, pattern, push_dec, str_eq, strs, trim,
    trimmed,
};

verus! {

/// The text of an optional value, trimmed, when it is not blank.
pub open spec fn given(o: Option<String>) -> Option<Seq<char>> {
    match o {
        Some(s) => if is_blank(s@) {
            None
        } else {
            Some(trim(s@))
        },
        None => None,
    }
}

fn given_copy(o: &Option<String>) -> (r: Option<String>)
    ensures
        match r {
            Some(s) => given(*o) == Some(s@),
            None => given(*o) is None,
        },
{
    match o {
        Some(s) => if blank(s.as_str()) {
            None
        } else {
            Some(trimmed(s.as_str()))
        },
        None => None,
    }
}

/// The value of a card: name, voice, portrait, description.
pub open spec fn card_value(c: CastingCard) -> (Seq<char>, Option<Seq<char>>, Option<Seq<char>>, Seq<char>) {
    (
        c.name@,
        match c.voice {
            Some(v) => Some(v@),
            None => None,
        },
        match c.portrait {
            Some(p) => Some(p@),
            None => None,
        },
        c.desc@,
    )
}

/// The message of a name that gives an empty slug.
pub open spec fn unsluggable(name: Seq<char>) -> Seq<char> {
    "name 无法 slug 化: "@ + name
}

/// A new casting object: name and description must not be blank, the name
/// must give a slug; the card holds them trimmed, and the voice when given.
pub open spec fn new_card_of(name: Seq<char>, desc: Seq<char>, voice: Option<String>) -> Result<
    ((Seq<char>, Option<Seq<char>>, Option<Seq<char>>, Seq<char>), Seq<char>),
    Seq<char>,
> {
    if trim(name).len() == 0 {
        Err("name 不可为空"@)
    } else if trim(desc).len() == 0 {
        Err("desc 不可为空"@)
    } else if slug(trim(name)).len() == 0 {
        Err(unsluggable(trim(name)))
    } else {
        Ok(((trim(name), given(voice), None, trim(desc)), slug(trim(name))))
    }
}

/// The card and slug of a new casting object (see [`new_card_of`]).
pub fn new_card(name: &str, desc: &str, voice: &Option<String>) -> (r: Result<(CastingCard, String), String>)
    ensures
        match r {
            Ok((c, s)) => new_card_of(name@, desc@, *voice) == Ok::<_, Seq<char>>((card_value(c), s@)),
            Err(m) => new_card_of(name@, desc@, *voice) == Err::<
                ((Seq<char>, Option<Seq<char>>, Option<Seq<char>>, Seq<char>), Seq<char>),
                Seq<char>,
            >(m@),
        },
{
    let n = trimmed(name);
    let d = trimmed(desc);
    if chars_of(n.as_str()).len() == 0 {
        return Err(String::from_str("name 不可为空"));
    }
    if chars_of(d.as_str()).len() == 0 {
        return Err(String::from_str("desc 不可为空"));
    }
    let s = slugify(n.as_str());
    if chars_of(s.as_str()).len() == 0 {
        let mut m = String::new();
        m.append("name 无法 slug 化: ");
        m.append(n.as_str());
        return Err(m);
    }
    let card = CastingCard { name: n, voice: given_copy(voice), portrait: None, desc: d };
    Ok((card, s))
}

/// The fields of an edit; each one left out keeps what the card has.
#[derive(Debug, Clone)]
pub struct CardUpdate {
    pub name: Option<String>,
    pub desc: Option<String>,
    pub voice: Option<String>,
    pub portrait: Option<String>,
}

/// The slug an edit renames the object to, when it renames it: the slug of
/// the given name, when not empty and other than the current slug.
pub open spec fn rename_to(name: Option<String>, current: Seq<char>) -> Option<Seq<char>> {
    match given(name) {
        Some(n) => if slug(n).len() > 0 && slug(n) != current {
            Some(slug(n))
        } else {
            None
        },
        None => None,
    }
}

/// The slug an edit renames the object to (see [`rename_to`]); the caller
/// looks whether another object holds it.
pub fn rename_target(name: &Option<String>, current: &str) -> (r: Option<String>)
    ensures
        match r {
            Some(s) => rename_to(*name, current@) == Some(s@),
            None => rename_to(*name, current@) is None,
        },
{
    match given_copy(name) {
        Some(n) => {
            let s = slugify(n.as_str());
            if chars_of(s.as_str()).len() > 0 && !str_eq(s.as_str(), current) {
                Some(s)
            } else {
                None
            }
        },
        None => None,
    }
}

/// `views/`, where a portrait must live.
pub open spec fn views_dir() -> Seq<char> {
    seq!['v', 'i', 'e', 'w', 's', '/']
}

/// The portrait after an edit: cleared by a blank value, set to the
/// trimmed value when it lies under `views/` without `..`, refused
/// otherwise; unchanged when not given.
pub open spec fn portrait_after(old: Option<Seq<char>>, p: Option<String>) -> Result<Option<Seq<char>>, Seq<char>> {
    match p {
        None => Ok(old),
        Some(x) => if is_blank(x@) {
            Ok(None)
        } else if !views_dir().is_prefix_of(trim(x@)) || contains(x@, seq!['.', '.']) {
            Err("portrait 须为 views/ 下的相对路径（如 views/front.png）"@)
        } else {
            Ok(Some(trim(x@)))
        },
    }
}

/// The message of a rename onto an object that exists.
pub open spec fn taken_message(ctype: Seq<char>, s: Seq<char>) -> Seq<char> {
    "定妆对象已存在: casting/"@ + ctype + "/"@ + s
}

/// An edit of the casting object under `slug`: a given name must give a
/// slug (400) not held by another object (`taken`, 409) and renames the
/// card; a given description replaces it; a given voice replaces it
/// (blank clears it); the portrait follows [`portrait_after`] (400).
pub open spec fn updated_card(
    card: CastingCard,
    ctype: Seq<char>,
    current: Seq<char>,
    u: CardUpdate,
    taken: bool,
) -> Result<((Seq<char>, Option<Seq<char>>, Option<Seq<char>>, Seq<char>), Seq<char>), (u16, Seq<char>)> {
    let c = card_value(card);
    let named = given(u.name);
    if named is Some && slug(named.unwrap()).len() == 0 {
        Err((400u16, unsluggable(named.unwrap())))
    } else if rename_to(u.name, current) is Some && taken {
        Err((409u16, taken_message(ctype, rename_to(u.name, current).unwrap())))
    } else {
        let name = match named {
            Some(n) => n,
            None => c.0,
        };
        let new_slug = match named {
            Some(n) => slug(n),
            None => current,
        };
        let desc = match given(u.desc) {
            Some(d) => d,
            None => c.3,
        };
        let voice = match u.voice {
            Some(v) => given(Some(v)),
            None => c.1,
        };
        match portrait_after(c.2, u.portrait) {
            Err(m) => Err((400u16, m)),
            Ok(p) => Ok(((name, voice, p, desc), new_slug)),
        }
    }
}

fn copy_opt(o: &Option<String>) -> (r: Option<String>)
    ensures
        match (r, *o) {
            (Some(a), Some(b)) => a@ == b@,
            (None, None) => true,
            _ => false,
        },
{
    match o {
        Some(s) => Some(s.clone()),
        None => None,
    }
}

/// Applies an edit to a casting card (see [`updated_card`]): the new card
/// and the slug it lives under.
pub fn update_card(card: &CastingCard, ctype: &str, current: &str, u: &CardUpdate, taken: bool) -> (r: Result<
    (CastingCard, String),
    (u16, String),
>)
    ensures
        match r {
            Ok((c, s)) => updated_card(*card, ctype@, current@, *u, taken) == Ok::<_, (u16, Seq<char>)>(
                (card_value(c), s@),
            ),
            Err((code, m)) => updated_card(*card, ctype@, current@, *u, taken) == Err::<
                ((Seq<char>, Option<Seq<char>>, Option<Seq<char>>, Seq<char>), Seq<char>),
                (u16, Seq<char>),
            >((code, m@)),
        },
{
    let named = given_copy(&u.name);
    let mut new_slug = String::from_str(current);
    let mut name = card.name.clone();
    if let Some(n) = &named {
        let s = slugify(n.as_str());
        if chars_of(s.as_str()).len() == 0 {
            let mut m = String::new();
            m.append("name 无法 slug 化: ");
            m.append(n.as_str());
            return Err((400, m));
        }
        if taken && !str_eq(s.as_str(), current) {
            let mut m = String::new();
            m.append("定妆对象已存在: casting/");
            m.append(ctype);
            m.append("/");
            m.append(s.as_str());
            return Err((409, m));
        }
        new_slug = s;
        name = n.clone();
    }
    let desc = match given_copy(&u.desc) {
        Some(d) => d,
        None => card.desc.clone(),
    };
    let voice = match &u.voice {
        Some(v) => if blank(v.as_str()) {
            None
        } else {
            Some(trimmed(v.as_str()))
        },
        None => copy_opt(&card.voice),
    };
    let portrait = match &u.portrait {
        None => copy_opt(&card.portrait),
        Some(p) => {
            if blank(p.as_str()) {
                None
            } else {
                let t = trimmed(p.as_str());
                let tv = chars_of(t.as_str());
                let views = pattern("views/");
                let pv = chars_of(p.as_str());
                let dots: Vec<char> = vec!['.', '.'];
                proof {
                    reveal_strlit("views/");
                    assert(views@ =~= views_dir());
                    assert(tv@.skip(0) =~= tv@);
                    assert(pv@.skip(0) =~= pv@);
                }
                let under = occurs_at(&tv, 0, &views);
                let has_dots = match crate::text::find_from(&pv, 0, &dots) {
                    Some(_) => true,
                    None => false,
                };
                proof {
                    assert(dots@ =~= seq!['.', '.']);
                }
                if !under || has_dots {
                    return Err((400, String::from_str("portrait 须为 views/ 下的相对路径（如 views/front.png）")));
                }
                Some(t)
            }
        },
    };
    Ok((CastingCard { name, voice, portrait, desc }, new_slug))
}

/// A new BGM track: its trigger (`global` when none or an empty one is
/// given, else the validated trigger) and its name (the slug of the given
/// name, which must be slug-like; `bgm-<n>` after the `count` tracks there
/// are when none is given).
pub open spec fn new_track_of(name: Option<String>, trigger: Option<String>, count: nat) -> Result<
    (Seq<char>, Seq<char>),
    Seq<char>,
> {
    let t = match trigger {
        None => Ok("global"@),
        Some(x) => if x@.len() == 0 {
            Ok("global"@)
        } else {
            match trigger_of(x@) {
                Some(v) => Ok(v),
                None => Err(trigger_error(x@)),
            }
        },
    };
    match t {
        Err(m) => Err(m),
        Ok(tv) => match given(name) {
            Some(n) => if slug_like(slug(n)) {
                Ok((slug(n), tv))
            } else {
                Err(unsluggable(n))
            },
            None => Ok(("bgm-"@ + dec(count + 1), tv)),
        },
    }
}

/// The name and trigger of a new BGM track (see [`new_track_of`]).
pub fn new_track(name: &Option<String>, trigger: &Option<String>, count: usize) -> (r: Result<(String, String), String>)
    requires
        count < u64::MAX,
    ensures
        match r {
            Ok((n, t)) => new_track_of(*name, *trigger, count as nat) == Ok::<_, Seq<char>>((n@, t@)),
            Err(m) => new_track_of(*name, *trigger, count as nat) == Err::<(Seq<char>, Seq<char>), _>(m@),
        },
{
    proof {
        reveal_strlit("global");
    }
    let t = match trigger {
        None => String::from_str("global"),
        Some(x) => if chars_of(x.as_str()).len() == 0 {
            String::from_str("global")
        } else {
            match validate_trigger(x.as_str()) {
                Ok(v) => v,
                Err(m) => return Err(m),
            }
        },
    };
    match given_copy(name) {
        Some(n) => {
            let s = slugify(n.as_str());
            if is_slug_like(s.as_str()) {
                Ok((s, t))
            } else {
                let mut m = String::new();
                m.append("name 无法 slug 化: ");
                m.append(n.as_str());
                Err(m)
            }
        },
        None => {
            let mut s = String::new();
            s.append("bgm-");
            push_dec(&mut s, count as u64 + 1);
            Ok((s, t))
        },
    }
}

/// The casting names a shot refers to: characters, props, pets, scenes,
/// actions, in that order.
pub open spec fn refs_of(s: ShotModel) -> Seq<Seq<char>> {
    s.characters + s.props + s.pets + s.scenes + s.actions
}

/// The casting names the shots refer to, shot by shot.
pub open spec fn all_refs(shots: Seq<ShotModel>) -> Seq<Seq<char>>
    decreases shots.len(),
{
    if shots.len() == 0 {
        seq![]
    } else {
        all_refs(shots.drop_last()) + refs_of(shots.last())
    }
}

/// The names not among `known`, each once, in the order they first come.
pub open spec fn unknown_among(names: Seq<Seq<char>>, known: Seq<Seq<char>>) -> Seq<Seq<char>>
    decreases names.len(),
{
    if names.len() == 0 {
        seq![]
    } else {
        let u = unknown_among(names.drop_last(), known);
        let x = names.last();
        if known.contains(x) || u.contains(x) {
            u
        } else {
            u.push(x)
        }
    }
}

fn append_names(dst: &mut Vec<String>, src: &Vec<String>)
    ensures
        strs(final(dst)@) == strs(old(dst)@) + strs(src@),
{
    let ghost start = strs(dst@);
    let mut i: usize = 0;
    while i < src.len()
        invariant
            i <= src@.len(),
            strs(dst@) == start + strs(src@).take(i as int),
        decreases src.len() - i,
    {
        let ghost before = dst@;
        let c = src[i].clone();
        dst.push(c);
        assert(dst@ == before.push(c));
        assert(strs(src@).take(i + 1) =~= strs(src@).take(i as int).push(src@[i as int]@));
        assert(strs(dst@) =~= strs(before).push(c@));
        assert(strs(dst@) =~= start + strs(src@).take(i + 1));
        i = i + 1;
    }
    assert(strs(src@).take(src@.len() as int) =~= strs(src@));
}

fn holds_name(v: &Vec<String>, x: &Vec<char>) -> (b: bool)
    ensures
        b == strs(v@).contains(x@),
{
    let mut i: usize = 0;
    while i < v.len()
        invariant
            i <= v@.len(),
            forall|j: int| 0 <= j < i ==> #[trigger] v@[j]@ != x@,
        decreases v.len() - i,
    {
        let c = chars_of(v[i].as_str());
        if chars_eq(&c, x) {
            assert(strs(v@)[i as int] == x@);
            return true;
        }
        i = i + 1;
    }
    proof {
        if strs(v@).contains(x@) {
            let j = strs(v@).index_of(x@);
            assert(v@[j]@ == x@);
        }
    }
    false
}

/// The casting names the storyboard refers to that no casting object
/// carries (see [`unknown_among`] and [`all_refs`]).
pub fn unknown_casting_refs(shots: &Vec<ScriptShot>, known: &Vec<String>) -> (r: Vec<String>)
    ensures
        strs(r@) == unknown_among(all_refs(shot_views(shots@)), strs(known@)),
{
    let ghost sv = shot_views(shots@);
    let mut names: Vec<String> = Vec::new();
    let mut i: usize = 0;
    assert(sv.take(0) =~= Seq::<ShotModel>::empty());
    while i < shots.len()
        invariant
            i <= shots@.len(),
            sv == shot_views(shots@),
            sv.len() == shots@.len(),
            strs(names@) == all_refs(sv.take(i as int)),
        decreases shots.len() - i,
    {
        let s = &shots[i];
        append_names(&mut names, &s.characters);
        append_names(&mut names, &s.props);
        append_names(&mut names, &s.pets);
        append_names(&mut names, &s.scenes);
        append_names(&mut names, &s.actions);
        proof {
            assert(sv.take(i + 1).drop_last() =~= sv.take(i as int));
            assert(sv.take(i + 1).last() == sv[i as int]);
            assert(sv[i as int] == shots@[i as int]@);
            assert(strs(names@) =~= all_refs(sv.take(i + 1)));
        }
        i = i + 1;
    }
    assert(sv.take(shots@.len() as int) =~= sv);
    let ghost all = strs(names@);
    let mut out: Vec<String> = Vec::new();
    let mut k: usize = 0;
    assert(all.take(0) =~= Seq::<Seq<char>>::empty());
    while k < names.len()
        invariant
            k <= names@.len(),
            all == strs(names@),
            all.len() == names@.len(),
            strs(out@) == unknown_among(all.take(k as int), strs(known@)),
        decreases names.len() - k,
    {
        assert(all.take(k + 1).drop_last() =~= all.take(k as int));
        assert(all.take(k + 1).last() == all[k as int]);
        let x = chars_of(names[k].as_str());
        if !holds_name(known, &x) && !holds_name(&out, &x) {
            out.push(names[k].clone());
            assert(strs(out@) =~= unknown_among(all.take(k as int), strs(known@)).push(all[k as int]));
        }
        k = k + 1;
    }
    assert(all.take(all.len() as int) =~= all);
    out
}

/// Who claims a casting object as it is created: the author of the request,
/// when one is given and is not `anonymous`.
pub open spec fn creator_claim(raw: Option<String>) -> Option<Seq<char>> {
    if raw is Some && author(raw) != "anonymous"@ {
        Some(author(raw))
    } else {
        None
    }
}

/// Who claims a casting object as it is created (see [`creator_claim`]).
pub fn auto_claimer(raw: &Option<String>) -> (r: Option<String>)
    ensures
        match r {
            Some(a) => creator_claim(*raw) == Some(a@),
            None => creator_claim(*raw) is None,
        },
{
    let a = author_of(raw);
    if raw.is_some() && !str_eq(a.as_str(), "anonymous") {
        Some(a)
    } else {
        proof {
            reveal_strlit("anonymous");
        }
        None
    }
}

/// A casting card after a view was made or imported as `views/<file>`:
/// the card takes the view as its portrait when it had none or when the
/// view is the main (`front`) one; otherwise the card is unchanged.
pub fn card_after_view(card: &CastingCard, view: &str, file: &str) -> (r: CastingCard)
    ensures
        (card.portrait is None || view@ == "front"@) ==> r.portrait is Some && r.portrait->0@ == "views/"@ + file@
            && r.name == card.name && r.voice == card.voice && r.desc == card.desc,
        !(card.portrait is None || view@ == "front"@) ==> r == *card,
{
    let voice = match &card.voice {
        Some(v) => Some(v.clone()),
        None => None,
    };
    let portrait = match &card.portrait {
        Some(p) => Some(p.clone()),
        None => None,
    };
    let backfill = card.portrait.is_none() || str_eq(view, "front");
    let portrait = if backfill {
        let mut p = String::from_str("views/");
        p.append(file);
        Some(p)
    } else {
        portrait
    };
    CastingCard { name: card.name.clone(), voice, portrait, desc: card.desc.clone() }
}

/// The description a view prompt uses: the card's, or `（name）` when the
/// card has none.
pub open spec fn view_desc(card: CastingCard) -> Seq<char> {
    if card.desc@.len() == 0 {
        "（"@ + card.name@ + "）"@
    } else {
        card.desc@
    }
}

/// The prompt of a view generation: the given prompt, trimmed, when it is
/// not blank; otherwise the default view prompt of the object's type over
/// [`view_desc`].
pub fn view_generation_prompt(card: &CastingCard, ctype: &str, view: &str, prompt: &Option<String>) -> (r: String)
    ensures
        r@ == match *prompt {
            Some(p) => if is_blank(p@) {
                crate::prompts::view_prompt(ctype@, view_desc(*card), view@)
            } else {
                trim(p@)
            },
            None => crate::prompts::view_prompt(ctype@, view_desc(*card), view@),
        },
{
    if let Some(p) = prompt {
        if !blank(p.as_str()) {
            return trimmed(p.as_str());
        }
    }
    let desc = if chars_of(card.desc.as_str()).len() == 0 {
        let mut d = String::from_str("（");
        d.append(card.name.as_str());
        d.append("）");
        d
    } else {
        card.desc.clone()
    };
    crate::prompts::default_view_prompt(ctype, desc.as_str(), view)
}

/// The hub paths a generated view may have, in the order they are looked
/// for: `casting/<type>/<slug>/views/<view>.<png|jpg|webp>`.
pub fn view_candidates(ctype: &str, slug: &str, view: &str) -> (r: Vec<String>)
    ensures
        strs(r@) == seq![
            "casting/"@ + ctype@ + "/"@ + slug@ + "/views/"@ + view@ + ".png"@,
            "casting/"@ + ctype@ + "/"@ + slug@ + "/views/"@ + view@ + ".jpg"@,
            "casting/"@ + ctype@ + "/"@ + slug@ + "/views/"@ + view@ + ".webp"@,
        ],
{
    let mut out: Vec<String> = Vec::new();
    let exts = ["png", "jpg", "webp"];
    let mut k: usize = 0;
    while k < 3
        invariant
            k <= 3,
            exts@ == seq!["png", "jpg", "webp"],
            out@.len() == k,
            forall|j: int| 0 <= j < k ==> (#[trigger] out@[j])@ == "casting/"@ + ctype@ + "/"@ + slug@ + "/views/"@
                + view@ + "."@ + exts@[j]@,
        decreases 3 - k,
    {
        let mut p = String::from_str("casting/");
        p.append(ctype);
        p.append("/");
        p.append(slug);
        p.append("/views/");
        p.append(view);
        p.append(".");
        p.append(exts[k]);
        out.push(p);
        k = k + 1;
    }
    proof {
        reveal_strlit(".");
        reveal_strlit("png");
        reveal_strlit("jpg");
        reveal_strlit("webp");
        reveal_strlit(".png");
        reveal_strlit(".jpg");
        reveal_strlit(".webp");
        let base = "casting/"@ + ctype@ + "/"@ + slug@ + "/views/"@ + view@;
        assert(base + "."@ + "png"@ =~= base + ".png"@);
        assert(base + "."@ + "jpg"@ =~= base + ".jpg"@);
        assert(base + "."@ + "webp"@ =~= base + ".webp"@);
        assert(strs(out@) =~= seq![base + ".png"@, base + ".jpg"@, base + ".webp"@]);
    }
    out
}

} // verus!
