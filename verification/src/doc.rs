//! Front-matter documents: an optional `---` block of `key: value` lines
//! ahead of a body. The table keeps its keys in increasing order, each key
//! once, so a document renders the same way whatever order it was built in.
use vstd::prelude::*;
use crate::text::{
    chars_eq, chars_of, chomp_cr, find, find_char_in, find_from, is_ws, lemma_find_bounds,
    lemma_line_end, lemma_trim_fixed, lemma_trimmed_ends, line_end, line_ranges, lines, lstrip,
    lstrip_index, occurs_at, push_char, shift, split_once, string_of_range, strip_range, trim,
    CharSet,
};

verus! {

// ---------------------------------------------------------------------------
// Key order
// ---------------------------------------------------------------------------

/// Strict lexicographic order of character sequences (the order of `String`:
/// code point by code point, a proper prefix first).
pub open spec fn key_lt(a: Seq<char>, b: Seq<char>) -> bool
    decreases a.len(),
{
    if b.len() == 0 {
        false
    } else if a.len() == 0 {
        true
    } else if a[0] != b[0] {
        a[0] < b[0]
    } else {
        key_lt(a.drop_first(), b.drop_first())
    }
}

pub proof fn lemma_key_lt_irreflexive(a: Seq<char>)
    ensures
        !key_lt(a, a),
    decreases a.len(),
{
    if a.len() > 0 {
        lemma_key_lt_irreflexive(a.drop_first());
    }
}

pub proof fn lemma_key_lt_transitive(a: Seq<char>, b: Seq<char>, c: Seq<char>)
    requires
        key_lt(a, b),
        key_lt(b, c),
    ensures
        key_lt(a, c),
    decreases a.len(),
{
    if a.len() > 0 && b.len() > 0 && c.len() > 0 && a[0] == b[0] && b[0] == c[0] {
        lemma_key_lt_transitive(a.drop_first(), b.drop_first(), c.drop_first());
    }
}

pub proof fn lemma_key_lt_total(a: Seq<char>, b: Seq<char>)
    requires
        a != b,
    ensures
        key_lt(a, b) || key_lt(b, a),
    decreases a.len(),
{
    if a.len() > 0 && b.len() > 0 && a[0] == b[0] {
        if a.drop_first() == b.drop_first() {
            assert(a =~= seq![a[0]] + a.drop_first());
            assert(b =~= seq![b[0]] + b.drop_first());
        }
        lemma_key_lt_total(a.drop_first(), b.drop_first());
    } else if a.len() == 0 && b.len() == 0 {
        assert(a =~= b);
    }
}

pub proof fn lemma_key_lt_asymmetric(a: Seq<char>, b: Seq<char>)
    requires
        key_lt(a, b),
    ensures
        !key_lt(b, a),
{
    if key_lt(b, a) {
        lemma_key_lt_transitive(a, b, a);
        lemma_key_lt_irreflexive(a);
    }
}

/// `a < b` on the characters of two keys.
pub fn key_less(a: &Vec<char>, b: &Vec<char>) -> (r: bool)
    ensures
        r == key_lt(a@, b@),
{
    let mut i: usize = 0;
    assert(a@.skip(0) =~= a@);
    assert(b@.skip(0) =~= b@);
    while i < a.len() && i < b.len() && a[i] == b[i]
        invariant
            i <= a.len(),
            i <= b.len(),
            key_lt(a@, b@) == key_lt(a@.skip(i as int), b@.skip(i as int)),
        decreases a.len() - i,
    {
        assert(a@.skip(i as int).drop_first() =~= a@.skip(i + 1));
        assert(b@.skip(i as int).drop_first() =~= b@.skip(i + 1));
        i = i + 1;
    }
    if i == b.len() {
        false
    } else if i == a.len() {
        true
    } else {
        a[i] < b[i]
    }
}

// ---------------------------------------------------------------------------
// The table
// ---------------------------------------------------------------------------

/// Keys strictly increasing along the entries.
pub open spec fn increasing(e: Seq<(Seq<char>, Seq<char>)>) -> bool {
    forall|i: int, j: int| 0 <= i < j < e.len() ==> key_lt(#[trigger] e[i].0, #[trigger] e[j].0)
}

/// The map the entries stand for: each entry inserted in turn, a later
/// entry replacing an earlier one with the same key.
pub open spec fn table(e: Seq<(Seq<char>, Seq<char>)>) -> Map<Seq<char>, Seq<char>>
    decreases e.len(),
{
    if e.len() == 0 {
        Map::empty()
    } else {
        table(e.drop_last()).insert(e.last().0, e.last().1)
    }
}

pub proof fn lemma_table_dom(e: Seq<(Seq<char>, Seq<char>)>, k: Seq<char>)
    ensures
        table(e).contains_key(k) <==> exists|i: int| 0 <= i < e.len() && (#[trigger] e[i]).0 == k,
    decreases e.len(),
{
    if e.len() > 0 {
        lemma_table_dom(e.drop_last(), k);
        if table(e).contains_key(k) && k != e.last().0 {
            let i = choose|i: int| 0 <= i < e.drop_last().len() && (#[trigger] e.drop_last()[i]).0 == k;
            assert(e[i] == e.drop_last()[i]);
        }
        if exists|i: int| 0 <= i < e.len() && (#[trigger] e[i]).0 == k {
            let i = choose|i: int| 0 <= i < e.len() && (#[trigger] e[i]).0 == k;
            if i < e.len() - 1 {
                assert(e.drop_last()[i] == e[i]);
            }
        }
    }
}

pub proof fn lemma_table_at(e: Seq<(Seq<char>, Seq<char>)>, i: int)
    requires
        increasing(e),
        0 <= i < e.len(),
    ensures
        table(e).contains_key(e[i].0),
        table(e)[e[i].0] == e[i].1,
    decreases e.len(),
{
    if i < e.len() - 1 {
        assert(e.drop_last()[i] == e[i]);
        lemma_table_at(e.drop_last(), i);
        assert(key_lt(e[i].0, e.last().0));
        lemma_key_lt_irreflexive(e[i].0);
    }
}

/// Putting `(k, v)` between the keys below `k` and the keys above it, in
/// place of an entry with key `k` when there is one.
pub open spec fn splice(
    e: Seq<(Seq<char>, Seq<char>)>,
    i: int,
    s: int,
    k: Seq<char>,
    v: Seq<char>,
) -> Seq<(Seq<char>, Seq<char>)> {
    e.take(i) + seq![(k, v)] + e.skip(s)
}

proof fn lemma_splice(e: Seq<(Seq<char>, Seq<char>)>, i: int, s: int, k: Seq<char>, v: Seq<char>)
    requires
        increasing(e),
        0 <= i <= s <= e.len(),
        s == i || (s == i + 1 && e[i].0 == k),
        forall|j: int| 0 <= j < i ==> key_lt(#[trigger] e[j].0, k),
        forall|j: int| s <= j < e.len() ==> key_lt(k, #[trigger] e[j].0),
    ensures
        increasing(splice(e, i, s, k, v)),
        table(splice(e, i, s, k, v)) == table(e).insert(k, v),
{
    let ne = splice(e, i, s, k, v);
    assert(ne.len() == e.len() - s + i + 1);
    assert forall|a: int| 0 <= a < ne.len() implies #[trigger] ne[a] == (if a < i {
        e[a]
    } else if a == i {
        (k, v)
    } else {
        e[a - i - 1 + s]
    }) by {}
    assert forall|a: int, b: int| 0 <= a < b < ne.len() implies key_lt(
        #[trigger] ne[a].0,
        #[trigger] ne[b].0,
    ) by {
        if a < i && b > i {
            lemma_key_lt_transitive(ne[a].0, k, ne[b].0);
        }
    }
    assert forall|x: Seq<char>| #[trigger] table(ne).contains_key(x) == table(e).insert(
        k,
        v,
    ).contains_key(x) by {
        lemma_table_dom(ne, x);
        lemma_table_dom(e, x);
        assert(ne[i] == (k, v));
        if x != k && table(e).contains_key(x) {
            let m = choose|m: int| 0 <= m < e.len() && (#[trigger] e[m]).0 == x;
            if m < i {
                assert(ne[m] == e[m]);
            } else if m >= s {
                assert(ne[m - s + i + 1] == e[m]);
            }
        }
        if table(ne).contains_key(x) && x != k {
            let m = choose|m: int| 0 <= m < ne.len() && (#[trigger] ne[m]).0 == x;
            if m < i {
                assert(e[m] == ne[m]);
            } else if m > i {
                assert(e[m - i - 1 + s] == ne[m]);
            }
        }
    }
    assert forall|x: Seq<char>| #[trigger] table(ne).contains_key(x) implies table(ne)[x] == table(
        e,
    ).insert(k, v)[x] by {
        lemma_table_dom(ne, x);
        let m = choose|m: int| 0 <= m < ne.len() && (#[trigger] ne[m]).0 == x;
        lemma_table_at(ne, m);
        if m < i {
            lemma_table_at(e, m);
            lemma_key_lt_irreflexive(k);
        } else if m > i {
            lemma_table_at(e, m - i - 1 + s);
            lemma_key_lt_irreflexive(k);
        }
    }
    assert(table(ne) =~= table(e).insert(k, v));
}

proof fn lemma_table_last_max(e: Seq<(Seq<char>, Seq<char>)>, k: Seq<char>)
    requires
        increasing(e),
        e.len() > 0,
        table(e).contains_key(k),
    ensures
        k == e.last().0 || key_lt(k, e.last().0),
{
    lemma_table_dom(e, k);
    let i = choose|i: int| 0 <= i < e.len() && (#[trigger] e[i]).0 == k;
    if i < e.len() - 1 {
        assert(key_lt(e[i].0, e[e.len() - 1].0));
    }
}

proof fn lemma_table_drop_last(e: Seq<(Seq<char>, Seq<char>)>)
    requires
        increasing(e),
        e.len() > 0,
    ensures
        table(e.drop_last()) == table(e).remove(e.last().0),
        increasing(e.drop_last()),
{
    let d = e.drop_last();
    assert forall|a: int, b: int| 0 <= a < b < d.len() implies key_lt(#[trigger] d[a].0, #[trigger] d[b].0) by {
        assert(d[a] == e[a] && d[b] == e[b]);
    }
    lemma_table_dom(d, e.last().0);
    if table(d).contains_key(e.last().0) {
        let i = choose|i: int| 0 <= i < d.len() && (#[trigger] d[i]).0 == e.last().0;
        assert(d[i] == e[i]);
        assert(key_lt(e[i].0, e[e.len() - 1].0));
        lemma_key_lt_irreflexive(e.last().0);
    }
    assert(table(d) =~= table(e).remove(e.last().0));
}

/// Increasing entries are determined by the map they stand for.
pub proof fn lemma_table_unique(e1: Seq<(Seq<char>, Seq<char>)>, e2: Seq<(Seq<char>, Seq<char>)>)
    requires
        increasing(e1),
        increasing(e2),
        table(e1) == table(e2),
    ensures
        e1 == e2,
    decreases e1.len(),
{
    if e1.len() == 0 || e2.len() == 0 {
        if e1.len() > 0 {
            assert(table(e1).contains_key(e1.last().0));
            assert(table(e2) =~= Map::<Seq<char>, Seq<char>>::empty());
        }
        if e2.len() > 0 {
            assert(table(e2).contains_key(e2.last().0));
            assert(table(e1) =~= Map::<Seq<char>, Seq<char>>::empty());
        }
        assert(e1 =~= e2);
    } else {
        let k1 = e1.last().0;
        let k2 = e2.last().0;
        assert(table(e1).contains_key(k1));
        assert(table(e2).contains_key(k2));
        lemma_table_last_max(e2, k1);
        lemma_table_last_max(e1, k2);
        if k1 != k2 {
            lemma_key_lt_asymmetric(k1, k2);
        }
        lemma_table_at(e1, e1.len() - 1);
        lemma_table_at(e2, e2.len() - 1);
        lemma_table_drop_last(e1);
        lemma_table_drop_last(e2);
        lemma_table_unique(e1.drop_last(), e2.drop_last());
        assert(e1 =~= e1.drop_last().push(e1.last()));
        assert(e2 =~= e2.drop_last().push(e2.last()));
    }
}

/// A document renders the same whatever order its table was filled in:
/// two tables with the same map give the same text.
pub proof fn law_render_depends_on_map(
    e1: Seq<(Seq<char>, Seq<char>)>,
    e2: Seq<(Seq<char>, Seq<char>)>,
    body: Seq<char>,
)
    requires
        increasing(e1),
        increasing(e2),
        table(e1) == table(e2),
    ensures
        fm_render(e1, body) == fm_render(e2, body),
{
    lemma_table_unique(e1, e2);
}

/// The character views of stored entries.
pub open spec fn entry_views(v: Seq<(String, String)>) -> Seq<(Seq<char>, Seq<char>)> {
    v.map_values(|p: (String, String)| (p.0@, p.1@))
}

/// A front-matter table. Its view is the list of entries in increasing key
/// order; [`table`] of the view is the map it holds.
pub struct FrontMatter {
    entries: Vec<(String, String)>,
}

impl View for FrontMatter {
    type V = Seq<(Seq<char>, Seq<char>)>;

    closed spec fn view(&self) -> Seq<(Seq<char>, Seq<char>)> {
        entry_views(self.entries@)
    }
}

impl FrontMatter {
    #[verifier::type_invariant]
    spec fn ordered(self) -> bool {
        increasing(entry_views(self.entries@))
    }

    /// An empty table.
    pub fn new() -> (r: FrontMatter)
        ensures
            r@ == Seq::<(Seq<char>, Seq<char>)>::empty(),
    {
        let r = FrontMatter { entries: Vec::new() };
        assert(entry_views(r.entries@) =~= Seq::<(Seq<char>, Seq<char>)>::empty());
        r
    }

    /// Number of entries.
    pub fn len(&self) -> (n: usize)
        ensures
            n == self@.len(),
    {
        self.entries.len()
    }

    /// Whether the table has no entry.
    pub fn is_empty(&self) -> (b: bool)
        ensures
            b == (self@.len() == 0),
    {
        self.entries.len() == 0
    }

    /// The stored entries, in increasing key order.
    pub fn entries(&self) -> (r: &Vec<(String, String)>)
        ensures
            entry_views(r@) == self@,
            increasing(self@),
    {
        proof {
            use_type_invariant(self);
        }
        &self.entries
    }

    /// Index of the first entry whose key is not below `k`.
    fn position(&self, k: &Vec<char>) -> (i: usize)
        ensures
            i <= self@.len(),
            forall|j: int| 0 <= j < i ==> key_lt(#[trigger] self@[j].0, k@),
            i < self@.len() ==> !key_lt(self@[i as int].0, k@),
    {
        let mut i: usize = 0;
        while i < self.entries.len()
            invariant
                i <= self.entries@.len(),
                self@ == entry_views(self.entries@),
                forall|j: int| 0 <= j < i ==> key_lt(#[trigger] self@[j].0, k@),
            decreases self.entries.len() - i,
        {
            let kc = chars_of(self.entries[i].0.as_str());
            if !key_less(&kc, k) {
                return i;
            }
            i = i + 1;
        }
        i
    }

    /// Sets `key` to `value`, replacing the value it had.
    pub fn insert(&mut self, key: String, value: String)
        ensures
            increasing(final(self)@),
            table(final(self)@) == table(old(self)@).insert(key@, value@),
    {
        proof {
            use_type_invariant(&*self);
        }
        let kc = chars_of(key.as_str());
        let i = self.position(&kc);
        let n = self.entries.len();
        let replace = if i < n {
            let ec = chars_of(self.entries[i].0.as_str());
            chars_eq(&ec, &kc)
        } else {
            false
        };
        let s = if replace {
            i + 1
        } else {
            i
        };
        let ghost e = self@;
        let ghost kv = key@;
        let ghost vv = value@;
        proof {
            assert forall|j: int| s <= j < e.len() implies key_lt(kv, #[trigger] e[j].0) by {
                if j > i {
                    if !replace {
                        lemma_key_lt_total(e[i as int].0, kv);
                    }
                    if key_lt(kv, e[i as int].0) {
                        lemma_key_lt_transitive(kv, e[i as int].0, e[j].0);
                    }
                } else {
                    lemma_key_lt_total(e[i as int].0, kv);
                }
            }
            lemma_splice(e, i as int, s as int, kv, vv);
        }
        let mut out: Vec<(String, String)> = Vec::new();
        let mut j: usize = 0;
        while j < i
            invariant
                j <= i <= n,
                n == self.entries@.len(),
                e == entry_views(self.entries@),
                entry_views(out@) == e.take(j as int),
            decreases i - j,
        {
            let a = self.entries[j].0.clone();
            let b = self.entries[j].1.clone();
            let ghost before = out@;
            out.push((a, b));
            assert(out@ == before.push((a, b)));
            assert(entry_views(out@) =~= entry_views(before).push((a@, b@)));
            assert(entry_views(out@) =~= e.take(j + 1));
            j = j + 1;
        }
        let ghost before = out@;
        out.push((key, value));
        assert(entry_views(out@) =~= entry_views(before).push((kv, vv)));
        let ghost mid = entry_views(out@);
        assert(mid =~= e.take(i as int) + seq![(kv, vv)]);
        let mut j: usize = s;
        while j < n
            invariant
                s <= j <= n,
                n == self.entries@.len(),
                e == entry_views(self.entries@),
                entry_views(out@) == mid + e.subrange(s as int, j as int),
            decreases n - j,
        {
            let a = self.entries[j].0.clone();
            let b = self.entries[j].1.clone();
            let ghost before = out@;
            out.push((a, b));
            assert(out@ == before.push((a, b)));
            assert(entry_views(out@) =~= entry_views(before).push((a@, b@)));
            assert(entry_views(out@) =~= mid + e.subrange(s as int, j + 1));
            j = j + 1;
        }
        assert(entry_views(out@) =~= splice(e, i as int, s as int, kv, vv));
        self.entries = out;
    }

    /// The value stored under `key`.
    pub fn get(&self, key: &str) -> (r: Option<&String>)
        ensures
            match r {
                Some(v) => table(self@).contains_key(key@) && v@ == table(self@)[key@],
                None => !table(self@).contains_key(key@),
            },
    {
        proof {
            use_type_invariant(self);
        }
        let kc = chars_of(key);
        let i = self.position(&kc);
        proof {
            lemma_table_dom(self@, key@);
        }
        if i < self.entries.len() {
            let ec = chars_of(self.entries[i].0.as_str());
            if chars_eq(&ec, &kc) {
                proof {
                    lemma_table_at(self@, i as int);
                }
                return Some(&self.entries[i].1);
            }
            proof {
                assert forall|j: int| 0 <= j < self@.len() implies (#[trigger] self@[j]).0 != key@ by {
                    if j < i {
                        lemma_key_lt_irreflexive(key@);
                    } else if j > i {
                        lemma_key_lt_total(self@[i as int].0, key@);
                        lemma_key_lt_transitive(key@, self@[i as int].0, self@[j].0);
                        lemma_key_lt_irreflexive(key@);
                    }
                }
            }
        } else {
            proof {
                assert forall|j: int| 0 <= j < self@.len() implies (#[trigger] self@[j]).0 != key@ by {
                    lemma_key_lt_irreflexive(key@);
                }
            }
        }
        None
    }
}

// ---------------------------------------------------------------------------
// Rendering
// ---------------------------------------------------------------------------

/// `---`, the line that opens and closes the block.
pub open spec fn dashes() -> Seq<char> {
    seq!['-', '-', '-']
}

/// Every `"` preceded by a backslash.
pub open spec fn escape_quotes(s: Seq<char>) -> Seq<char>
    decreases s.len(),
{
    if s.len() == 0 {
        seq![]
    } else {
        (if s[0] == '"' {
            seq!['\\', '"']
        } else {
            seq![s[0]]
        }) + escape_quotes(s.drop_first())
    }
}

/// Whether a value is written in double quotes: it holds `:`, `#` or `"`,
/// or starts or ends with a space.
pub open spec fn needs_quotes(v: Seq<char>) -> bool {
    ||| v.contains(':')
    ||| v.contains('#')
    ||| v.contains('"')
    ||| (v.len() > 0 && (v[0] == ' ' || v.last() == ' '))
}

/// How a value is written: `""` when empty; in quotes, its own quotes
/// escaped, when it needs them; as it is otherwise.
pub open spec fn fm_value(v: Seq<char>) -> Seq<char> {
    if v.len() == 0 {
        seq!['"', '"']
    } else if needs_quotes(v) {
        seq!['"'] + escape_quotes(v) + seq!['"']
    } else {
        v
    }
}

/// One `key: value` line, without its newline.
pub open spec fn fm_line(e: (Seq<char>, Seq<char>)) -> Seq<char> {
    e.0 + seq![':', ' '] + fm_value(e.1)
}

/// The lines of the entries, each ended by a newline.
pub open spec fn fm_block(e: Seq<(Seq<char>, Seq<char>)>) -> Seq<char>
    decreases e.len(),
{
    if e.len() == 0 {
        seq![]
    } else {
        fm_line(e[0]) + seq!['\n'] + fm_block(e.drop_first())
    }
}

/// A rendered document: the body alone when there is no entry; otherwise
/// the entry lines between two `---` lines, then a blank line and the body
/// when the body is not empty.
pub open spec fn fm_render(e: Seq<(Seq<char>, Seq<char>)>, body: Seq<char>) -> Seq<char> {
    if e.len() == 0 {
        body
    } else {
        dashes() + seq!['\n'] + fm_block(e) + dashes() + seq!['\n'] + (if body.len() == 0 {
            seq![]
        } else {
            seq!['\n'] + body
        })
    }
}

fn has_char(v: &Vec<char>, c: char) -> (b: bool)
    ensures
        b == v@.contains(c),
{
    let mut i: usize = 0;
    while i < v.len()
        invariant
            i <= v.len(),
            forall|j: int| 0 <= j < i ==> v@[j] != c,
        decreases v.len() - i,
    {
        if v[i] == c {
            return true;
        }
        i = i + 1;
    }
    false
}

/// A value as it is written in a front-matter line.
fn fm_escape(v: &str) -> (r: String)
    ensures
        r@ == fm_value(v@),
{
    let c = chars_of(v);
    let mut r = String::new();
    if c.len() == 0 {
        push_char(&mut r, '"');
        push_char(&mut r, '"');
        assert(r@ =~= seq!['"', '"']);
        return r;
    }
    let needs = has_char(&c, ':') || has_char(&c, '#') || has_char(&c, '"') || c[0] == ' '
        || c[c.len() - 1] == ' ';
    if !needs {
        return String::from_str(v);
    }
    push_char(&mut r, '"');
    let mut i: usize = 0;
    assert(c@.skip(0) =~= c@);
    while i < c.len()
        invariant
            i <= c.len(),
            seq!['"'] + escape_quotes(c@) == r@ + escape_quotes(c@.skip(i as int)),
        decreases c.len() - i,
    {
        assert(c@.skip(i as int).drop_first() =~= c@.skip(i + 1));
        if c[i] == '"' {
            push_char(&mut r, '\\');
        }
        push_char(&mut r, c[i]);
        i = i + 1;
    }
    assert(c@.skip(i as int) =~= Seq::<char>::empty());
    push_char(&mut r, '"');
    r
}

/// Renders a document: without entries the body as it is; otherwise a
/// `---` line, one `key: value` line per entry in key order (values in
/// quotes where they need them), a closing `---` line, then a blank line
/// and the body when the body is not empty.
pub fn render_doc(fm: &FrontMatter, body: &str) -> (r: String)
    ensures
        r@ == fm_render(fm@, body@),
{
    if fm.is_empty() {
        return String::from_str(body);
    }
    let entries = fm.entries();
    let ghost e = fm@;
    let mut out = String::new();
    push_char(&mut out, '-');
    push_char(&mut out, '-');
    push_char(&mut out, '-');
    push_char(&mut out, '\n');
    let ghost head = out@;
    assert(head =~= dashes() + seq!['\n']);
    let mut i: usize = 0;
    assert(e.skip(0) =~= e);
    while i < entries.len()
        invariant
            i <= entries@.len(),
            entry_views(entries@) == e,
            head + fm_block(e) == out@ + fm_block(e.skip(i as int)),
        decreases entries.len() - i,
    {
        assert(e.skip(i as int).drop_first() =~= e.skip(i + 1));
        assert(e.skip(i as int)[0] == e[i as int]);
        out.append(entries[i].0.as_str());
        push_char(&mut out, ':');
        push_char(&mut out, ' ');
        let val = fm_escape(entries[i].1.as_str());
        out.append(val.as_str());
        push_char(&mut out, '\n');
        i = i + 1;
    }
    assert(e.skip(i as int) =~= Seq::<(Seq<char>, Seq<char>)>::empty());
    push_char(&mut out, '-');
    push_char(&mut out, '-');
    push_char(&mut out, '-');
    push_char(&mut out, '\n');
    let ghost lines_done = out@;
    assert(lines_done =~= dashes() + seq!['\n'] + fm_block(e) + dashes() + seq!['\n']);
    let bc = chars_of(body);
    if bc.len() > 0 {
        push_char(&mut out, '\n');
        out.append(body);
    } else {
        assert(out@ =~= lines_done + Seq::<char>::empty());
    }
    out
}

// ---------------------------------------------------------------------------
// Parsing
// ---------------------------------------------------------------------------

/// `\n---`, the start of the closing line.
pub open spec fn closing() -> Seq<char> {
    seq!['\n', '-', '-', '-']
}

/// The block and the rest of a document with front matter. Leading
/// byte-order marks are skipped; the text must then start with `---`; the
/// block runs from the next line up to the first `\n---`, and the rest
/// follows that `\n---`. `None` when the opening or the closing is missing.
pub open spec fn fm_parts(t: Seq<char>) -> Option<(Seq<char>, Seq<char>)> {
    let s = lstrip(t, CharSet::One('\u{feff}'));
    if !dashes().is_prefix_of(s) {
        None
    } else {
        let after = s.skip(3);
        let area = match find(after, seq!['\n']) {
            Some(i) => after.skip(i + 1),
            None => after,
        };
        match find(area, closing()) {
            Some(e) => Some((area.take(e), area.skip(e + 4))),
            None => None,
        }
    }
}

/// `str::replace("\\\"", "\"")`: each backslash-quote pair becomes a quote.
pub open spec fn unescape_quotes(s: Seq<char>) -> Seq<char>
    decreases s.len(),
{
    if s.len() == 0 {
        seq![]
    } else if s.len() >= 2 && s[0] == '\\' && s[1] == '"' {
        seq!['"'] + unescape_quotes(s.skip(2))
    } else {
        seq![s[0]] + unescape_quotes(s.drop_first())
    }
}

/// A value without its surrounding double quotes, when it has both.
pub open spec fn unquote(v: Seq<char>) -> Seq<char> {
    if v.len() >= 2 && v[0] == '"' && v.last() == '"' {
        v.subrange(1, v.len() - 1)
    } else {
        v
    }
}

/// The entry of one block line: the trimmed text before the first `:` is
/// the key (no entry when it is empty, or when there is no `:`); the trimmed
/// text after it, unquoted and unescaped, is the value.
pub open spec fn fm_entry(line: Seq<char>) -> Option<(Seq<char>, Seq<char>)> {
    match split_once(line, ':') {
        None => None,
        Some((k, v)) => if trim(k).len() == 0 {
            None
        } else {
            Some((trim(k), unescape_quotes(unquote(trim(v)))))
        },
    }
}

/// The table of the block lines, a later line replacing an earlier one with
/// the same key.
pub open spec fn fm_table(ls: Seq<Seq<char>>) -> Map<Seq<char>, Seq<char>>
    decreases ls.len(),
{
    if ls.len() == 0 {
        Map::empty()
    } else {
        match fm_entry(ls.last()) {
            Some((k, v)) => fm_table(ls.drop_last()).insert(k, v),
            None => fm_table(ls.drop_last()),
        }
    }
}

fn sub_chars(v: &Vec<char>, lo: usize, hi: usize) -> (r: Vec<char>)
    requires
        lo <= hi <= v.len(),
    ensures
        r@ == v@.subrange(lo as int, hi as int),
{
    let mut r: Vec<char> = Vec::new();
    let mut i = lo;
    while i < hi
        invariant
            lo <= i <= hi <= v.len(),
            r@ == v@.subrange(lo as int, i as int),
        decreases hi - i,
    {
        r.push(v[i]);
        assert(r@ =~= v@.subrange(lo as int, i + 1));
        i = i + 1;
    }
    r
}

fn unescape_range(v: &Vec<char>, lo: usize, hi: usize) -> (r: String)
    requires
        lo <= hi <= v.len(),
    ensures
        r@ == unescape_quotes(v@.subrange(lo as int, hi as int)),
{
    let mut r = String::new();
    let mut i = lo;
    while i < hi
        invariant
            lo <= i <= hi <= v.len(),
            unescape_quotes(v@.subrange(lo as int, hi as int)) == r@ + unescape_quotes(
                v@.subrange(i as int, hi as int),
            ),
        decreases hi - i,
    {
        let ghost rest = v@.subrange(i as int, hi as int);
        if i + 1 < hi && v[i] == '\\' && v[i + 1] == '"' {
            assert(rest.skip(2) =~= v@.subrange(i + 2, hi as int));
            push_char(&mut r, '"');
            i = i + 2;
        } else {
            assert(rest.drop_first() =~= v@.subrange(i + 1, hi as int));
            push_char(&mut r, v[i]);
            i = i + 1;
        }
    }
    assert(v@.subrange(i as int, hi as int) =~= Seq::<char>::empty());
    assert(r@ + Seq::<char>::empty() =~= r@);
    r
}

fn parse_entry(v: &Vec<char>, lo: usize, hi: usize) -> (r: Option<(String, String)>)
    requires
        lo <= hi <= v.len(),
    ensures
        match (r, fm_entry(v@.subrange(lo as int, hi as int))) {
            (Some((a, b)), Some((k, w))) => a@ == k && b@ == w,
            (None, None) => true,
            _ => false,
        },
{
    let ghost line = v@.subrange(lo as int, hi as int);
    match find_char_in(v, lo, hi, ':') {
        None => None,
        Some(c) => {
            assert(line.take(c - lo) =~= v@.subrange(lo as int, c as int));
            assert(line.skip(c - lo + 1) =~= v@.subrange(c + 1, hi as int));
            let (ka, kb) = strip_range(v, lo, c, &CharSet::Space);
            if ka == kb {
                return None;
            }
            let (va, vb) = strip_range(v, c + 1, hi, &CharSet::Space);
            let ghost tv = v@.subrange(va as int, vb as int);
            let (ia, ib) = if vb - va >= 2 && v[va] == '"' && v[vb - 1] == '"' {
                assert(tv.subrange(1, tv.len() - 1) =~= v@.subrange(va + 1, vb - 1));
                (va + 1, vb - 1)
            } else {
                (va, vb)
            };
            let val = unescape_range(v, ia, ib);
            Some((string_of_range(v, ka, kb), val))
        },
    }
}

fn parse_block(v: &Vec<char>, lo: usize, hi: usize) -> (r: FrontMatter)
    requires
        lo <= hi <= v.len(),
    ensures
        table(r@) == fm_table(lines(v@.subrange(lo as int, hi as int))),
{
    let sub = sub_chars(v, lo, hi);
    let rs = line_ranges(&sub);
    let ghost ls = lines(sub@);
    let mut fm = FrontMatter::new();
    assert(table(fm@) =~= Map::<Seq<char>, Seq<char>>::empty());
    assert(ls.take(0) =~= Seq::<Seq<char>>::empty());
    let mut i: usize = 0;
    while i < rs.len()
        invariant
            i <= rs@.len(),
            ls == lines(sub@),
            rs@.len() == ls.len(),
            forall|k: int| 0 <= k < rs@.len() ==> (#[trigger] rs@[k]).0 <= rs@[k].1 <= sub@.len(),
            forall|k: int|
                0 <= k < rs@.len() ==> #[trigger] ls[k] == sub@.subrange(
                    rs@[k].0 as int,
                    rs@[k].1 as int,
                ),
            table(fm@) == fm_table(ls.take(i as int)),
        decreases rs.len() - i,
    {
        let (p, q) = rs[i];
        assert(ls.take(i + 1).drop_last() =~= ls.take(i as int));
        assert(ls.take(i + 1).last() == ls[i as int]);
        match parse_entry(&sub, p, q) {
            Some((k, w)) => {
                fm.insert(k, w);
            },
            None => {},
        }
        i = i + 1;
    }
    assert(ls.take(rs@.len() as int) =~= ls);
    fm
}

/// The map a document's front matter holds (empty without front matter).
pub open spec fn doc_table(t: Seq<char>) -> Map<Seq<char>, Seq<char>> {
    match fm_parts(t) {
        None => Map::empty(),
        Some((block, _)) => fm_table(lines(block)),
    }
}

/// A document's body: the whole text without front matter, otherwise what
/// follows the closing `---` without its leading newlines.
pub open spec fn doc_body(t: Seq<char>) -> Seq<char> {
    match fm_parts(t) {
        None => t,
        Some((_, rest)) => lstrip(rest, CharSet::One('\n')),
    }
}

/// Splits a document into its front-matter table and its body. After any
/// leading byte-order marks the text must start with `---` and hold a
/// closing `\n---` past the opening line; otherwise the table is empty and
/// the body is the whole text. The block lines give the entries (see
/// [`fm_entry`]; a later line wins), and the body is what follows the
/// closing `---` with its leading newlines removed.
#[verifier::rlimit(40)]
pub fn split_front_matter(text: &str) -> (r: (FrontMatter, String))
    ensures
        increasing(r.0@),
        table(r.0@) == doc_table(text@),
        r.1@ == doc_body(text@),
        match fm_parts(text@) {
            None => r.0@.len() == 0 && r.1@ == text@,
            Some((block, rest)) => table(r.0@) == fm_table(lines(block)) && r.1@ == lstrip(
                rest,
                CharSet::One('\n'),
            ),
        },
{
    let v = chars_of(text);
    let n = v.len();
    let a = lstrip_index(&v, 0, n, &CharSet::One('\u{feff}'));
    assert(v@.subrange(0, n as int) =~= v@);
    let ghost s = v@.subrange(a as int, n as int);
    assert(v@.skip(a as int) =~= s);
    let dash: Vec<char> = vec!['-', '-', '-'];
    assert(dash@ =~= dashes());
    if !occurs_at(&v, a, &dash) {
        let fm = FrontMatter::new();
        assert(increasing(fm@));
        return (fm, String::from_str(text));
    }
    let after = a + 3;
    assert(s.skip(3) =~= v@.subrange(after as int, n as int));
    let start = match find_char_in(&v, after, n, '\n') {
        Some(i) => {
            assert(v@.subrange(after as int, n as int).skip(i - after + 1) =~= v@.subrange(
                i + 1,
                n as int,
            ));
            i + 1
        },
        None => after,
    };
    let ghost area = v@.subrange(start as int, n as int);
    assert(v@.skip(start as int) =~= area);
    let close: Vec<char> = vec!['\n', '-', '-', '-'];
    assert(close@ =~= closing());
    proof {
        lemma_find_bounds(area, closing());
    }
    let end = match find_from(&v, start, &close) {
        Some(e) => e,
        None => {
            let fm = FrontMatter::new();
            assert(increasing(fm@));
            return (fm, String::from_str(text));
        },
    };
    assert(area.take(end - start) =~= v@.subrange(start as int, end as int));
    assert(area.skip(end - start + 4) =~= v@.subrange(end + 4, n as int));
    let fm = parse_block(&v, start, end);
    proof {
        use_type_invariant(&fm);
    }
    let b = lstrip_index(&v, end + 4, n, &CharSet::One('\n'));
    (fm, string_of_range(&v, b, n))
}

// ---------------------------------------------------------------------------
// Writing, then reading back
// ---------------------------------------------------------------------------

/// A key that reads back as written: not empty, without surrounding
/// whitespace, holding neither `:` nor a newline.
pub open spec fn fm_key_ok(k: Seq<char>) -> bool {
    k.len() > 0 && trim(k) == k && !k.contains(':') && !k.contains('\n')
}

/// A value that reads back as written: no newline, and no surrounding
/// whitespace unless it is written in quotes.
pub open spec fn fm_value_ok(v: Seq<char>) -> bool {
    !v.contains('\n') && (needs_quotes(v) || trim(v) == v)
}

/// The block lines of the entries.
pub open spec fn fm_lines(e: Seq<(Seq<char>, Seq<char>)>) -> Seq<Seq<char>> {
    e.map_values(|x: (Seq<char>, Seq<char>)| fm_line(x))
}

proof fn lemma_find_skip_free(s: Seq<char>, pat: Seq<char>, k: int)
    requires
        pat.len() > 0,
        0 <= k <= s.len(),
        forall|j: int| 0 <= j < k ==> s[j] != pat[0],
    ensures
        find(s, pat) == shift(find(s.skip(k), pat), k),
    decreases k,
{
    if k == 0 {
        assert(s.skip(0) =~= s);
    } else {
        assert(!pat.is_prefix_of(s)) by {
            if pat.is_prefix_of(s) {
                assert(s.subrange(0, pat.len() as int)[0] == s[0]);
            }
        }
        assert forall|j: int| 0 <= j < k - 1 implies s.drop_first()[j] != pat[0] by {
            assert(s.drop_first()[j] == s[j + 1]);
        }
        lemma_find_skip_free(s.drop_first(), pat, k - 1);
        assert(s.drop_first().skip(k - 1) =~= s.skip(k));
    }
}

proof fn lemma_escape(v: Seq<char>)
    ensures
        unescape_quotes(escape_quotes(v)) == v,
        escape_quotes(v).len() > 0 ==> escape_quotes(v)[0] != '"',
        !v.contains('\n') ==> !escape_quotes(v).contains('\n'),
    decreases v.len(),
{
    if v.len() > 0 {
        let t = v.drop_first();
        lemma_escape(t);
        let x = escape_quotes(v);
        let rest = escape_quotes(t);
        if v[0] == '"' {
            assert(x.skip(2) =~= rest);
            assert(x =~= seq!['"'] + rest || true);
        } else {
            assert(x.drop_first() =~= rest);
        }
        assert(unescape_quotes(x) =~= v) by {
            if v[0] == '"' {
                assert(x.skip(2) =~= rest);
                assert(v =~= seq!['"'] + t);
            } else {
                assert(x.drop_first() =~= rest);
                assert(v =~= seq![v[0]] + t);
            }
        }
        if !v.contains('\n') {
            assert(!t.contains('\n')) by {
                if t.contains('\n') {
                    let j = choose|j: int| 0 <= j < t.len() && t[j] == '\n';
                    assert(v[j + 1] == '\n');
                }
            }
            assert forall|j: int| 0 <= j < x.len() implies x[j] != '\n' by {
                if v[0] == '"' {
                    if j >= 2 {
                        assert(x[j] == rest[j - 2]);
                    }
                } else {
                    if j >= 1 {
                        assert(x[j] == rest[j - 1]);
                    } else {
                        assert(x[0] == v[0]);
                    }
                }
            }
        }
    }
}

proof fn lemma_unescape_plain(v: Seq<char>)
    requires
        !v.contains('"'),
    ensures
        unescape_quotes(v) == v,
    decreases v.len(),
{
    if v.len() > 0 {
        let t = v.drop_first();
        assert(!t.contains('"')) by {
            if t.contains('"') {
                let j = choose|j: int| 0 <= j < t.len() && t[j] == '"';
                assert(v[j + 1] == '"');
            }
        }
        lemma_unescape_plain(t);
        if v.len() >= 2 {
            assert(v[1] != '"');
        }
        assert(v =~= seq![v[0]] + t);
    }
}

proof fn lemma_value(v: Seq<char>)
    requires
        fm_value_ok(v),
    ensures
        fm_value(v).len() > 0,
        trim(fm_value(v)) == fm_value(v),
        !is_ws(fm_value(v).last()),
        !fm_value(v).contains('\n'),
        unescape_quotes(unquote(fm_value(v))) == v,
{
    let w = fm_value(v);
    lemma_escape(v);
    if v.len() == 0 {
        assert(unquote(w) =~= Seq::<char>::empty());
        assert(v =~= Seq::<char>::empty());
    } else if needs_quotes(v) {
        let x = escape_quotes(v);
        lemma_trim_fixed(w);
        assert(unquote(w) =~= x);
        assert forall|j: int| 0 <= j < w.len() implies w[j] != '\n' by {
            if 1 <= j < w.len() - 1 {
                assert(w[j] == x[j - 1]);
            }
        }
    } else {
        lemma_trimmed_ends(v);
        lemma_unescape_plain(v);
    }
}

/// `lstrip` of a space followed by `w`.
proof fn lemma_lstrip_space(w: Seq<char>)
    ensures
        lstrip(seq![' '] + w, CharSet::Space) == lstrip(w, CharSet::Space),
{
    assert((seq![' '] + w).drop_first() =~= w);
}

proof fn lemma_line(x: (Seq<char>, Seq<char>))
    requires
        fm_key_ok(x.0),
        fm_value_ok(x.1),
    ensures
        fm_entry(fm_line(x)) == Some(x),
        fm_line(x).len() > 0,
        !fm_line(x).contains('\n'),
        fm_line(x).last() != '\r',
        fm_line(x)[0] == x.0[0],
{
    let (k, v) = x;
    let l = fm_line(x);
    let w = fm_value(v);
    lemma_value(v);
    assert(l =~= k + (seq![':'] + (seq![' '] + w)));
    lemma_find_skip_free(l, seq![':'], k.len() as int);
    assert(l.skip(k.len() as int) =~= seq![':'] + (seq![' '] + w));
    assert(seq![':'].is_prefix_of(l.skip(k.len() as int)));
    assert(l.take(k.len() as int) =~= k);
    assert(l.skip(k.len() as int + 1) =~= seq![' '] + w);
    lemma_lstrip_space(w);
    assert(trim(seq![' '] + w) == trim(w));
    assert forall|j: int| 0 <= j < l.len() implies l[j] != '\n' by {
        if j < k.len() {
            assert(l[j] == k[j]);
        } else if j >= k.len() + 2 {
            assert(l[j] == w[j - k.len() - 2]);
        }
    }
    assert(l.last() == w.last());
}

proof fn lemma_no_dashes(a: Seq<char>, b: Seq<char>)
    requires
        !dashes().is_prefix_of(a),
        b.len() > 0,
        b[0] != '-',
    ensures
        !dashes().is_prefix_of(a + b),
{
    if dashes().is_prefix_of(a + b) {
        if a.len() >= 3 {
            assert((a + b).subrange(0, 3) =~= a.subrange(0, 3));
        } else {
            assert((a + b).subrange(0, 3)[a.len() as int] == b[0]);
        }
    }
}

proof fn lemma_not_closing(e1: Seq<(Seq<char>, Seq<char>)>, tail: Seq<char>)
    requires
        e1.len() > 0,
        fm_key_ok(e1[0].0),
        !dashes().is_prefix_of(e1[0].0),
    ensures
        !closing().is_prefix_of(seq!['\n'] + fm_block(e1) + dashes() + tail),
{
    let r = seq!['\n'] + fm_block(e1) + dashes() + tail;
    let k1 = e1[0].0;
    let rest1 = seq![':', ' '] + fm_value(e1[0].1) + seq!['\n'] + fm_block(e1.drop_first()) + dashes()
        + tail;
    assert(r.drop_first() =~= k1 + rest1);
    lemma_no_dashes(k1, rest1);
    if closing().is_prefix_of(r) {
        assert(r.drop_first().subrange(0, 3) =~= r.subrange(1, 4));
        assert(r.subrange(1, 4) =~= closing().subrange(1, 4));
        assert(closing().subrange(1, 4) =~= dashes());
    }
}

proof fn lemma_block_closing(e: Seq<(Seq<char>, Seq<char>)>, tail: Seq<char>)
    requires
        e.len() > 0,
        forall|i: int| 0 <= i < e.len() ==> fm_key_ok(#[trigger] e[i].0) && fm_value_ok(e[i].1),
        forall|i: int| 1 <= i < e.len() ==> !dashes().is_prefix_of(#[trigger] e[i].0),
    ensures
        fm_block(e).len() > 0,
        fm_block(e).last() == '\n',
        find(fm_block(e) + dashes() + tail, closing()) == Some(fm_block(e).len() - 1),
    decreases e.len(),
{
    let l0 = fm_line(e[0]);
    let e1 = e.drop_first();
    lemma_line(e[0]);
    let r = seq!['\n'] + fm_block(e1) + dashes() + tail;
    let x = fm_block(e) + dashes() + tail;
    assert(x =~= l0 + r);
    assert forall|j: int| 0 <= j < l0.len() implies x[j] != closing()[0] by {
        assert(x[j] == l0[j]);
    }
    lemma_find_skip_free(x, closing(), l0.len() as int);
    assert(x.skip(l0.len() as int) =~= r);
    if e1.len() == 0 {
        assert(fm_block(e1) =~= Seq::<char>::empty());
        assert(r.subrange(0, 4) =~= closing());
    } else {
        assert forall|i: int| 0 <= i < e1.len() implies fm_key_ok(#[trigger] e1[i].0) && fm_value_ok(
            e1[i].1,
        ) by {
            assert(e1[i] == e[i + 1]);
        }
        assert forall|i: int| 1 <= i < e1.len() implies !dashes().is_prefix_of(#[trigger] e1[i].0) by {
            assert(e1[i] == e[i + 1]);
        }
        lemma_block_closing(e1, tail);
        assert(e1[0] == e[1]);
        lemma_not_closing(e1, tail);
        assert(r.drop_first() =~= fm_block(e1) + dashes() + tail);
    }
}

proof fn lemma_block_lines(e: Seq<(Seq<char>, Seq<char>)>)
    requires
        e.len() > 0,
        forall|i: int| 0 <= i < e.len() ==> fm_key_ok(#[trigger] e[i].0) && fm_value_ok(e[i].1),
    ensures
        fm_block(e).len() > 0,
        fm_block(e).last() == '\n',
        lines(fm_block(e).drop_last()) == fm_lines(e),
    decreases e.len(),
{
    let l0 = fm_line(e[0]);
    let e1 = e.drop_first();
    lemma_line(e[0]);
    let j = fm_block(e).drop_last();
    lemma_line_end(j);
    if e1.len() == 0 {
        assert(fm_block(e1) =~= Seq::<char>::empty());
        assert(j =~= l0);
        if line_end(j) < j.len() {
            assert(j[line_end(j)] == '\n');
        }
        assert(fm_lines(e) =~= seq![l0]);
    } else {
        assert forall|i: int| 0 <= i < e1.len() implies fm_key_ok(#[trigger] e1[i].0) && fm_value_ok(
            e1[i].1,
        ) by {
            assert(e1[i] == e[i + 1]);
        }
        lemma_block_lines(e1);
        let j1 = fm_block(e1).drop_last();
        assert(j =~= l0 + seq!['\n'] + j1);
        assert(line_end(j) == l0.len()) by {
            if line_end(j) < l0.len() {
                assert(j[line_end(j)] == l0[line_end(j)]);
            }
            if line_end(j) > l0.len() {
                assert(j[l0.len() as int] == '\n');
            }
        }
        assert(j.take(l0.len() as int) =~= l0);
        assert(chomp_cr(l0) == l0);
        assert(j.skip(l0.len() as int + 1) =~= j1);
        assert(fm_lines(e) =~= seq![l0] + fm_lines(e1));
    }
}

proof fn lemma_table_lines(e: Seq<(Seq<char>, Seq<char>)>)
    requires
        forall|i: int| 0 <= i < e.len() ==> fm_key_ok(#[trigger] e[i].0) && fm_value_ok(e[i].1),
    ensures
        fm_table(fm_lines(e)) == table(e),
    decreases e.len(),
{
    if e.len() > 0 {
        let d = e.drop_last();
        assert forall|i: int| 0 <= i < d.len() implies fm_key_ok(#[trigger] d[i].0) && fm_value_ok(
            d[i].1,
        ) by {
            assert(d[i] == e[i]);
        }
        lemma_table_lines(d);
        assert(fm_lines(e).drop_last() =~= fm_lines(d));
        lemma_line(e.last());
    }
}

/// Reading back a written document gives the table and the body that were
/// written, when there is at least one entry, every key is non-empty,
/// without surrounding whitespace and holds neither `:` nor a newline, no
/// key but the first starts with `---`, no value holds a newline, a value
/// written without quotes has no surrounding whitespace, and the body does
/// not start with a newline.
pub proof fn law_front_matter_roundtrip(e: Seq<(Seq<char>, Seq<char>)>, body: Seq<char>)
    requires
        e.len() > 0,
        forall|i: int| 0 <= i < e.len() ==> fm_key_ok(#[trigger] e[i].0) && fm_value_ok(e[i].1),
        forall|i: int| 1 <= i < e.len() ==> !dashes().is_prefix_of(#[trigger] e[i].0),
        body.len() == 0 || body[0] != '\n',
    ensures
        fm_parts(fm_render(e, body)) matches Some((block, rest)) && fm_table(lines(block)) == table(e)
            && lstrip(rest, CharSet::One('\n')) == body,
{
    let t = fm_render(e, body);
    let b2: Seq<char> = if body.len() == 0 {
        seq![]
    } else {
        seq!['\n'] + body
    };
    let tail = seq!['\n'] + b2;
    let blk = fm_block(e);
    lemma_block_closing(e, tail);
    lemma_block_lines(e);
    lemma_table_lines(e);
    assert(t =~= dashes() + (seq!['\n'] + (blk + dashes() + tail)));
    assert(lstrip(t, CharSet::One('\u{feff}')) == t);
    assert(t.subrange(0, 3) =~= dashes());
    let after = t.skip(3);
    assert(after =~= seq!['\n'] + (blk + dashes() + tail));
    assert(seq!['\n'].is_prefix_of(after)) by {
        assert(after.subrange(0, 1) =~= seq!['\n']);
    }
    let area = after.skip(1);
    assert(area =~= blk + dashes() + tail);
    let end = blk.len() - 1;
    assert(area.take(end) =~= blk.drop_last());
    assert(area.skip(end + 4) =~= tail);
    assert(lstrip(tail, CharSet::One('\n')) == body) by {
        assert(tail.drop_first() =~= b2);
        assert(lstrip(tail, CharSet::One('\n')) == lstrip(b2, CharSet::One('\n')));
        if body.len() > 0 {
            assert(b2.drop_first() =~= body);
            assert(lstrip(b2, CharSet::One('\n')) == lstrip(body, CharSet::One('\n')));
        } else {
            assert(b2 =~= body);
        }
    }
}

} // verus!
