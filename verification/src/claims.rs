//! Object claims of a hub (`casting_objects` in `ownership.json`): which
//! member owns a casting object, kept under the object's `<type>/<slug>`
//! key, one claim per key.
use vstd::prelude::*;
use crate::text::{chars_eq, chars_of};

verus! {

/// The owner of a casting object and when the claim was made.
#[derive(Debug, Clone)]
pub struct Claim {
    pub owner: Option<String>,
    pub claimed_at: Option<String>,
}

/// The value of a claim.
pub struct ClaimModel {
    pub owner: Option<Seq<char>>,
    pub claimed_at: Option<Seq<char>>,
}

/// The characters of an optional string.
pub open spec fn opt_chars(o: Option<String>) -> Option<Seq<char>> {
    match o {
        Some(s) => Some(s@),
        None => None,
    }
}

impl View for Claim {
    type V = ClaimModel;

    open spec fn view(&self) -> ClaimModel {
        ClaimModel { owner: opt_chars(self.owner), claimed_at: opt_chars(self.claimed_at) }
    }
}

fn copy_opt(o: &Option<String>) -> (r: Option<String>)
    ensures
        opt_chars(r) == opt_chars(*o),
{
    match o {
        Some(s) => Some(s.clone()),
        None => None,
    }
}

fn copy_claim(c: &Claim) -> (r: Claim)
    ensures
        r@ == c@,
{
    Claim { owner: copy_opt(&c.owner), claimed_at: copy_opt(&c.claimed_at) }
}

/// The key and value of each stored claim.
pub open spec fn claim_views(s: Seq<(String, Claim)>) -> Seq<(Seq<char>, ClaimModel)>
    decreases s.len(),
{
    if s.len() == 0 {
        seq![]
    } else {
        claim_views(s.drop_last()).push((s.last().0@, s.last().1@))
    }
}

/// The claims as a map from object key to claim (a later entry wins).
pub open spec fn claim_map(s: Seq<(Seq<char>, ClaimModel)>) -> Map<Seq<char>, ClaimModel>
    decreases s.len(),
{
    if s.len() == 0 {
        Map::empty()
    } else {
        claim_map(s.drop_last()).insert(s.last().0, s.last().1)
    }
}

/// No key is stored twice.
pub open spec fn unique_keys(s: Seq<(Seq<char>, ClaimModel)>) -> bool {
    forall|i: int, j: int| 0 <= i < j < s.len() ==> #[trigger] s[i].0 != #[trigger] s[j].0
}

/// The claim a member makes on an object at a time.
pub open spec fn claim_by(owner: Seq<char>, at: Seq<char>) -> ClaimModel {
    ClaimModel { owner: Some(owner), claimed_at: Some(at) }
}

/// The owner of the object under `key`, if it is claimed by a named owner.
pub open spec fn owner_of(m: Map<Seq<char>, ClaimModel>, key: Seq<char>) -> Option<Seq<char>> {
    if m.contains_key(key) {
        m[key].owner
    } else {
        None
    }
}

/// The claims after an object is claimed.
pub open spec fn after_claim(m: Map<Seq<char>, ClaimModel>, key: Seq<char>, owner: Seq<char>, at: Seq<char>) -> Map<
    Seq<char>,
    ClaimModel,
> {
    m.insert(key, claim_by(owner, at))
}

/// The claims after an object is renamed: its claim moves to the new key;
/// nothing changes when the keys are equal or the object is unclaimed.
pub open spec fn after_move(m: Map<Seq<char>, ClaimModel>, old_key: Seq<char>, new_key: Seq<char>) -> Map<
    Seq<char>,
    ClaimModel,
> {
    if old_key == new_key || !m.contains_key(old_key) {
        m
    } else {
        m.remove(old_key).insert(new_key, m[old_key])
    }
}

/// After a member claims an object, the object's owner is that member.
pub proof fn law_claimer_after_claim(m: Map<Seq<char>, ClaimModel>, key: Seq<char>, owner: Seq<char>, at: Seq<char>)
    ensures
        owner_of(after_claim(m, key, owner, at), key) == Some(owner),
{
}

/// Claiming one object leaves the owners of all other objects as they were.
pub proof fn law_claim_leaves_others(
    m: Map<Seq<char>, ClaimModel>,
    key: Seq<char>,
    owner: Seq<char>,
    at: Seq<char>,
    other: Seq<char>,
)
    requires
        other != key,
    ensures
        owner_of(after_claim(m, key, owner, at), other) == owner_of(m, other),
{
}

/// After a claim is dropped the object has no owner.
pub proof fn law_removed_is_unclaimed(m: Map<Seq<char>, ClaimModel>, key: Seq<char>)
    ensures
        owner_of(m.remove(key), key) is None,
{
}

/// Renaming a claimed object carries its claim to the new key and leaves
/// nothing under the old one.
pub proof fn law_move_carries_claim(m: Map<Seq<char>, ClaimModel>, old_key: Seq<char>, new_key: Seq<char>)
    requires
        m.contains_key(old_key),
        old_key != new_key,
    ensures
        after_move(m, old_key, new_key).contains_key(new_key),
        after_move(m, old_key, new_key)[new_key] == m[old_key],
        !after_move(m, old_key, new_key).contains_key(old_key),
        owner_of(after_move(m, old_key, new_key), new_key) == owner_of(m, old_key),
{
}

/// Renaming an object and renaming it back restores the claims, when the
/// new key held no claim of its own.
pub proof fn law_move_back_restores(m: Map<Seq<char>, ClaimModel>, old_key: Seq<char>, new_key: Seq<char>)
    requires
        !m.contains_key(new_key),
    ensures
        after_move(after_move(m, old_key, new_key), new_key, old_key) == m,
{
    if old_key != new_key && m.contains_key(old_key) {
        assert(after_move(after_move(m, old_key, new_key), new_key, old_key) =~= m);
    }
}

proof fn lemma_claim_views_len(s: Seq<(String, Claim)>)
    ensures
        claim_views(s).len() == s.len(),
        forall|i: int| 0 <= i < s.len() ==> #[trigger] claim_views(s)[i] == (s[i].0@, s[i].1@),
    decreases s.len(),
{
    if s.len() > 0 {
        lemma_claim_views_len(s.drop_last());
    }
}

proof fn lemma_claim_map_dom(s: Seq<(Seq<char>, ClaimModel)>, k: Seq<char>)
    ensures
        claim_map(s).contains_key(k) <==> exists|i: int| 0 <= i < s.len() && #[trigger] s[i].0 == k,
    decreases s.len(),
{
    if s.len() > 0 {
        let t = s.drop_last();
        lemma_claim_map_dom(t, k);
        if claim_map(s).contains_key(k) && s.last().0 != k {
            let i = choose|i: int| 0 <= i < t.len() && #[trigger] t[i].0 == k;
            assert(s[i].0 == k);
        }
        if exists|i: int| 0 <= i < s.len() && #[trigger] s[i].0 == k {
            let i = choose|i: int| 0 <= i < s.len() && #[trigger] s[i].0 == k;
            if i < t.len() {
                assert(t[i].0 == k);
            }
        }
    }
}

proof fn lemma_claim_map_at(s: Seq<(Seq<char>, ClaimModel)>, i: int)
    requires
        unique_keys(s),
        0 <= i < s.len(),
    ensures
        claim_map(s).contains_key(s[i].0),
        claim_map(s)[s[i].0] == s[i].1,
    decreases s.len(),
{
    let t = s.drop_last();
    if i < t.len() {
        assert(unique_keys(t)) by {
            assert forall|a: int, b: int| 0 <= a < b < t.len() implies #[trigger] t[a].0 != #[trigger] t[b].0 by {
                assert(s[a].0 != s[b].0);
            }
        }
        lemma_claim_map_at(t, i);
        assert(s[i].0 != s[s.len() - 1].0);
    }
}

proof fn lemma_claim_map_remove(s: Seq<(Seq<char>, ClaimModel)>, i: int)
    requires
        unique_keys(s),
        0 <= i < s.len(),
    ensures
        unique_keys(s.remove(i)),
        claim_map(s.remove(i)) == claim_map(s).remove(s[i].0),
    decreases s.len(),
{
    let r = s.remove(i);
    let k = s[i].0;
    assert forall|a: int, b: int| 0 <= a < b < r.len() implies #[trigger] r[a].0 != #[trigger] r[b].0 by {
        let a2 = if a < i { a } else { a + 1 };
        let b2 = if b < i { b } else { b + 1 };
        assert(r[a] == s[a2]);
        assert(r[b] == s[b2]);
        assert(s[a2].0 != s[b2].0);
    }
    assert forall|x: Seq<char>| #[trigger] claim_map(r).contains_key(x) == claim_map(s).remove(k).contains_key(x) by {
        lemma_claim_map_dom(r, x);
        lemma_claim_map_dom(s, x);
        if exists|j: int| 0 <= j < s.len() && #[trigger] s[j].0 == x {
            let j = choose|j: int| 0 <= j < s.len() && #[trigger] s[j].0 == x;
            if x != k {
                assert(j != i);
                let j2 = if j < i { j } else { j - 1 };
                assert(r[j2] == s[j]);
            }
        }
        if exists|j: int| 0 <= j < r.len() && #[trigger] r[j].0 == x {
            let j = choose|j: int| 0 <= j < r.len() && #[trigger] r[j].0 == x;
            let j2 = if j < i { j } else { j + 1 };
            assert(r[j] == s[j2]);
            assert(j2 != i);
        }
    }
    assert forall|x: Seq<char>| #[trigger] claim_map(r).contains_key(x) implies claim_map(r)[x] == claim_map(s)[x] by {
        lemma_claim_map_dom(r, x);
        let j = choose|j: int| 0 <= j < r.len() && #[trigger] r[j].0 == x;
        let j2 = if j < i { j } else { j + 1 };
        assert(r[j] == s[j2]);
        lemma_claim_map_at(r, j);
        lemma_claim_map_at(s, j2);
    }
    assert(claim_map(r) =~= claim_map(s).remove(k));
}

proof fn lemma_claim_map_update(s: Seq<(Seq<char>, ClaimModel)>, i: int, c: ClaimModel)
    requires
        unique_keys(s),
        0 <= i < s.len(),
    ensures
        unique_keys(s.update(i, (s[i].0, c))),
        claim_map(s.update(i, (s[i].0, c))) == claim_map(s).insert(s[i].0, c),
{
    let u = s.update(i, (s[i].0, c));
    let k = s[i].0;
    assert forall|a: int, b: int| 0 <= a < b < u.len() implies #[trigger] u[a].0 != #[trigger] u[b].0 by {
        assert(s[a].0 != s[b].0);
    }
    assert forall|x: Seq<char>| #[trigger] claim_map(u).contains_key(x) == claim_map(s).insert(k, c).contains_key(x) by {
        lemma_claim_map_dom(u, x);
        lemma_claim_map_dom(s, x);
        if exists|j: int| 0 <= j < s.len() && #[trigger] s[j].0 == x {
            let j = choose|j: int| 0 <= j < s.len() && #[trigger] s[j].0 == x;
            assert(u[j].0 == x);
        }
        if exists|j: int| 0 <= j < u.len() && #[trigger] u[j].0 == x {
            let j = choose|j: int| 0 <= j < u.len() && #[trigger] u[j].0 == x;
            assert(s[j].0 == x);
        }
        assert(u[i].0 == k);
    }
    assert forall|x: Seq<char>| #[trigger] claim_map(u).contains_key(x) implies claim_map(u)[x] == claim_map(s).insert(k, c)[x] by {
        lemma_claim_map_dom(u, x);
        let j = choose|j: int| 0 <= j < u.len() && #[trigger] u[j].0 == x;
        lemma_claim_map_at(u, j);
        if j != i {
            lemma_claim_map_at(s, j);
        }
    }
    assert(claim_map(u) =~= claim_map(s).insert(k, c));
}

/// The object claims of a hub.
pub struct ClaimBook {
    entries: Vec<(String, Claim)>,
}

impl View for ClaimBook {
    type V = Map<Seq<char>, ClaimModel>;

    closed spec fn view(&self) -> Map<Seq<char>, ClaimModel> {
        claim_map(claim_views(self.entries@))
    }
}

impl ClaimBook {
    #[verifier::type_invariant]
    spec fn keys_unique(self) -> bool {
        unique_keys(claim_views(self.entries@))
    }

    /// A book without claims.
    pub fn new() -> (r: ClaimBook)
        ensures
            r@ == Map::<Seq<char>, ClaimModel>::empty(),
    {
        ClaimBook { entries: Vec::new() }
    }

    /// The stored claims, one per key.
    pub fn entries(&self) -> (r: &Vec<(String, Claim)>)
        ensures
            unique_keys(claim_views(r@)),
            claim_map(claim_views(r@)) == self@,
    {
        proof {
            use_type_invariant(self);
        }
        &self.entries
    }

    /// Index of the entry stored under `key`.
    fn find(&self, key: &Vec<char>) -> (r: Option<usize>)
        ensures
            match r {
                Some(i) => i < self.entries@.len() && claim_views(self.entries@)[i as int].0 == key@,
                None => forall|i: int| 0 <= i < self.entries@.len() ==> #[trigger] claim_views(self.entries@)[i].0 != key@,
            },
    {
        proof {
            lemma_claim_views_len(self.entries@);
        }
        let mut i: usize = 0;
        while i < self.entries.len()
            invariant
                i <= self.entries@.len(),
                claim_views(self.entries@).len() == self.entries@.len(),
                forall|j: int| 0 <= j < self.entries@.len() ==> #[trigger] claim_views(self.entries@)[j] == (self.entries@[j].0@, self.entries@[j].1@),
                forall|j: int| 0 <= j < i ==> #[trigger] claim_views(self.entries@)[j].0 != key@,
            decreases self.entries.len() - i,
        {
            let ec = chars_of(self.entries[i].0.as_str());
            if chars_eq(&ec, key) {
                return Some(i);
            }
            i = i + 1;
        }
        None
    }

    /// Builds a book from stored pairs; a key stored twice keeps its later claim.
    pub fn from_entries(pairs: Vec<(String, Claim)>) -> (r: ClaimBook)
        ensures
            r@ == claim_map(claim_views(pairs@)),
    {
        let mut b = ClaimBook::new();
        let mut i: usize = 0;
        while i < pairs.len()
            invariant
                i <= pairs@.len(),
                b@ == claim_map(claim_views(pairs@.take(i as int))),
            decreases pairs.len() - i,
        {
            let k = pairs[i].0.clone();
            let c = copy_claim(&pairs[i].1);
            b.put(k, c);
            assert(pairs@.take(i + 1).drop_last() =~= pairs@.take(i as int));
            assert(claim_views(pairs@.take(i + 1)) == claim_views(pairs@.take(i as int)).push((pairs@[i as int].0@, pairs@[i as int].1@)));
            assert(claim_views(pairs@.take(i + 1)).drop_last() =~= claim_views(pairs@.take(i as int)));
            i = i + 1;
        }
        assert(pairs@.take(pairs@.len() as int) =~= pairs@);
        b
    }

    /// Stores `claim` under `key`, replacing the claim the key had.
    pub fn put(&mut self, key: String, claim: Claim)
        ensures
            final(self)@ == old(self)@.insert(key@, claim@),
    {
        proof {
            use_type_invariant(&*self);
            lemma_claim_views_len(self.entries@);
        }
        let kc = chars_of(key.as_str());
        let found = self.find(&kc);
        let ghost s = claim_views(self.entries@);
        let ghost kv = key@;
        let ghost cv = claim@;
        let mut v: Vec<(String, Claim)> = Vec::new();
        std::mem::swap(&mut v, &mut self.entries);
        match found {
            Some(i) => {
                v.set(i, (key, claim));
                proof {
                    lemma_claim_map_update(s, i as int, cv);
                    lemma_claim_views_len(v@);
                    assert(claim_views(v@) =~= s.update(i as int, (kv, cv)));
                    assert(claim_map(claim_views(v@)) == claim_map(s).insert(kv, cv));
                }
            },
            None => {
                let ghost before = v@;
                v.push((key, claim));
                proof {
                    assert(v@.drop_last() =~= before);
                    assert(claim_views(v@) == s.push((kv, cv)));
                    assert(s.push((kv, cv)).drop_last() =~= s);
                    assert(claim_map(claim_views(v@)) == claim_map(s).insert(kv, cv));
                    assert forall|a: int, b: int| 0 <= a < b < claim_views(v@).len() implies #[trigger] claim_views(v@)[a].0 != #[trigger] claim_views(v@)[b].0 by {
                        lemma_claim_views_len(v@);
                        if b < s.len() {
                            assert(s[a].0 != s[b].0);
                        }
                    }
                }
            },
        }
        self.entries = v;
    }

    /// Records that `owner` claims the object under `key` at time `at`.
    pub fn set_claim(&mut self, key: &str, owner: &str, at: &str)
        ensures
            final(self)@ == after_claim(old(self)@, key@, owner@, at@),
    {
        let c = Claim { owner: Some(String::from_str(owner)), claimed_at: Some(String::from_str(at)) };
        self.put(String::from_str(key), c);
    }

    /// Drops the claim on the object under `key`.
    pub fn remove_claim(&mut self, key: &str)
        ensures
            final(self)@ == old(self)@.remove(key@),
    {
        proof {
            use_type_invariant(&*self);
            lemma_claim_views_len(self.entries@);
        }
        let kc = chars_of(key);
        match self.find(&kc) {
            Some(i) => {
                let ghost s = claim_views(self.entries@);
                let mut v: Vec<(String, Claim)> = Vec::new();
                std::mem::swap(&mut v, &mut self.entries);
                let ghost before = v@;
                let _ = v.remove(i);
                proof {
                    lemma_claim_map_remove(s, i as int);
                    lemma_claim_views_len(v@);
                    lemma_claim_views_len(before);
                    assert(claim_views(v@) =~= s.remove(i as int));
                }
                self.entries = v;
            },
            None => {
                proof {
                    let s = claim_views(self.entries@);
                    lemma_claim_map_dom(s, key@);
                    assert(self@ =~= self@.remove(key@));
                }
            },
        }
    }

    /// Moves the claim under `old_key` to `new_key` (an object renamed).
    pub fn move_claim(&mut self, old_key: &str, new_key: &str)
        ensures
            final(self)@ == after_move(old(self)@, old_key@, new_key@),
    {
        proof {
            use_type_invariant(&*self);
            lemma_claim_views_len(self.entries@);
        }
        let a = chars_of(old_key);
        let b = chars_of(new_key);
        if chars_eq(&a, &b) {
            return;
        }
        match self.find(&a) {
            Some(i) => {
                let c = copy_claim(&self.entries[i].1);
                proof {
                    lemma_claim_map_at(claim_views(self.entries@), i as int);
                }
                self.remove_claim(old_key);
                self.put(String::from_str(new_key), c);
            },
            None => {
                proof {
                    lemma_claim_map_dom(claim_views(self.entries@), old_key@);
                }
            },
        }
    }

    /// The owner of the object under `key`, if it is claimed.
    pub fn claimer(&self, key: &str) -> (r: Option<String>)
        ensures
            opt_chars(r) == owner_of(self@, key@),
    {
        proof {
            use_type_invariant(self);
            lemma_claim_views_len(self.entries@);
        }
        let kc = chars_of(key);
        match self.find(&kc) {
            Some(i) => {
                proof {
                    lemma_claim_map_at(claim_views(self.entries@), i as int);
                }
                match &self.entries[i].1.owner {
                    Some(o) => Some(o.clone()),
                    None => None,
                }
            },
            None => {
                proof {
                    lemma_claim_map_dom(claim_views(self.entries@), key@);
                }
                None
            },
        }
    }
}

} // verus!
