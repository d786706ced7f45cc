//! Character-sequence toolkit shared by the rest of the library: the
//! `White_Space` class, trimming, substring search, line splitting, decimal
//! rendering and parsing, all specified over `Seq<char>`.
use vstd::prelude::*;

verus! {

// ---------------------------------------------------------------------------
// Character classes
// ---------------------------------------------------------------------------

/// The Unicode `White_Space` property (the class `char::is_whitespace` tests).
pub open spec fn is_ws(c: char) -> bool {
    ||| ('\t' <= c && c <= '\r')
    ||| c == ' '
    ||| c == '\u{85}'
    ||| c == '\u{A0}'
    ||| c == '\u{1680}'
    ||| ('\u{2000}' <= c && c <= '\u{200A}')
    ||| c == '\u{2028}'
    ||| c == '\u{2029}'
    ||| c == '\u{202F}'
    ||| c == '\u{205F}'
    ||| c == '\u{3000}'
}

/// Whitespace test (Unicode `White_Space`).
pub fn is_whitespace(c: char) -> (b: bool)
    ensures
        b == is_ws(c),
{
    ('\t' <= c && c <= '\r') || c == ' ' || c == '\u{85}' || c == '\u{A0}' || c == '\u{1680}'
        || ('\u{2000}' <= c && c <= '\u{200A}') || c == '\u{2028}' || c == '\u{2029}' || c
        == '\u{202F}' || c == '\u{205F}' || c == '\u{3000}'
}

/// A set of characters that a strip operation removes.
pub enum CharSet {
    /// Unicode whitespace.
    Space,
    /// Exactly one character.
    One(char),
}

impl CharSet {
    pub open spec fn holds(self, c: char) -> bool {
        match self {
            CharSet::Space => is_ws(c),
            CharSet::One(x) => c == x,
        }
    }

    pub fn test(&self, c: char) -> (b: bool)
        ensures
            b == self.holds(c),
    {
        match self {
            CharSet::Space => is_whitespace(c),
            CharSet::One(x) => c == *x,
        }
    }
}

// ---------------------------------------------------------------------------
// Stripping
// ---------------------------------------------------------------------------

/// Drops every leading character of the set.
pub open spec fn lstrip(s: Seq<char>, set: CharSet) -> Seq<char>
    decreases s.len(),
{
    if s.len() > 0 && set.holds(s[0]) {
        lstrip(s.drop_first(), set)
    } else {
        s
    }
}

/// Drops every trailing character of the set.
pub open spec fn rstrip(s: Seq<char>, set: CharSet) -> Seq<char>
    decreases s.len(),
{
    if s.len() > 0 && set.holds(s.last()) {
        rstrip(s.drop_last(), set)
    } else {
        s
    }
}

/// Drops leading and trailing characters of the set.
pub open spec fn strip(s: Seq<char>, set: CharSet) -> Seq<char> {
    rstrip(lstrip(s, set), set)
}

/// `str::trim`: leading and trailing whitespace removed.
pub open spec fn trim(s: Seq<char>) -> Seq<char> {
    strip(s, CharSet::Space)
}

/// Whether a sequence is empty once trimmed.
pub open spec fn is_blank(s: Seq<char>) -> bool {
    trim(s).len() == 0
}

pub proof fn lemma_lstrip_is_skip(s: Seq<char>, set: CharSet)
    ensures
        exists|k: int| 0 <= k <= s.len() && lstrip(s, set) == s.skip(k),
        lstrip(s, set).len() > 0 ==> !set.holds(lstrip(s, set)[0]),
    decreases s.len(),
{
    if s.len() > 0 && set.holds(s[0]) {
        lemma_lstrip_is_skip(s.drop_first(), set);
        let k = choose|k: int| 0 <= k <= s.drop_first().len() && lstrip(s.drop_first(), set) == s.drop_first().skip(k);
        assert(s.drop_first().skip(k) =~= s.skip(k + 1));
    } else {
        assert(s.skip(0) =~= s);
    }
}

pub proof fn lemma_rstrip_is_take(s: Seq<char>, set: CharSet)
    ensures
        exists|k: int| 0 <= k <= s.len() && rstrip(s, set) == s.take(k),
        rstrip(s, set).len() > 0 ==> !set.holds(rstrip(s, set).last()),
    decreases s.len(),
{
    if s.len() > 0 && set.holds(s.last()) {
        lemma_rstrip_is_take(s.drop_last(), set);
        let k = choose|k: int| 0 <= k <= s.drop_last().len() && rstrip(s.drop_last(), set) == s.drop_last().take(k);
        assert(s.drop_last().take(k) =~= s.take(k));
    } else {
        assert(s.take(s.len() as int) =~= s);
    }
}

/// `trim` of a sequence whose first and last characters are not whitespace.
pub proof fn lemma_trim_fixed(w: Seq<char>)
    requires
        w.len() > 0,
        !is_ws(w[0]),
        !is_ws(w.last()),
    ensures
        trim(w) == w,
{
}

/// The first and last characters of a sequence equal to its trim.
pub proof fn lemma_trimmed_ends(w: Seq<char>)
    requires
        w.len() > 0,
        trim(w) == w,
    ensures
        !is_ws(w[0]),
        !is_ws(w.last()),
{
    lemma_lstrip_is_skip(w, CharSet::Space);
    lemma_rstrip_is_take(lstrip(w, CharSet::Space), CharSet::Space);
    let k = choose|k: int|
        0 <= k <= lstrip(w, CharSet::Space).len() && rstrip(lstrip(w, CharSet::Space), CharSet::Space)
            == lstrip(w, CharSet::Space).take(k);
    assert(w[0] == lstrip(w, CharSet::Space)[0]);
}

/// A non-empty trim starts and ends outside whitespace, and trimming it
/// again changes nothing.
pub proof fn lemma_trim_trim(s: Seq<char>)
    ensures
        trim(s).len() > 0 ==> !is_ws(trim(s)[0]) && !is_ws(trim(s).last()),
        trim(trim(s)) == trim(s),
{
    let l = lstrip(s, CharSet::Space);
    lemma_lstrip_is_skip(s, CharSet::Space);
    lemma_rstrip_is_take(l, CharSet::Space);
    let k = choose|k: int| 0 <= k <= l.len() && rstrip(l, CharSet::Space) == l.take(k);
    if trim(s).len() > 0 {
        assert(trim(s)[0] == l[0]);
        lemma_trim_fixed(trim(s));
    } else {
        assert(trim(s) =~= Seq::<char>::empty());
    }
}

/// Index of the first character outside the set.
pub fn lstrip_index(v: &Vec<char>, lo: usize, hi: usize, set: &CharSet) -> (i: usize)
    requires
        lo <= hi <= v.len(),
    ensures
        lo <= i <= hi,
        lstrip(v@.subrange(lo as int, hi as int), *set) == v@.subrange(i as int, hi as int),
{
    let mut i = lo;
    while i < hi && set.test(v[i])
        invariant
            lo <= i <= hi <= v.len(),
            lstrip(v@.subrange(lo as int, hi as int), *set) == lstrip(
                v@.subrange(i as int, hi as int),
                *set,
            ),
        decreases hi - i,
    {
        assert(v@.subrange(i as int, hi as int).drop_first() =~= v@.subrange(i + 1, hi as int));
        i = i + 1;
    }
    i
}

/// Index just past the last character outside the set.
pub fn rstrip_index(v: &Vec<char>, lo: usize, hi: usize, set: &CharSet) -> (j: usize)
    requires
        lo <= hi <= v.len(),
    ensures
        lo <= j <= hi,
        rstrip(v@.subrange(lo as int, hi as int), *set) == v@.subrange(lo as int, j as int),
{
    let mut j = hi;
    while j > lo && set.test(v[j - 1])
        invariant
            lo <= j <= hi <= v.len(),
            rstrip(v@.subrange(lo as int, hi as int), *set) == rstrip(
                v@.subrange(lo as int, j as int),
                *set,
            ),
        decreases j - lo,
    {
        assert(v@.subrange(lo as int, j as int).drop_last() =~= v@.subrange(lo as int, j - 1));
        j = j - 1;
    }
    j
}

/// Bounds of the stripped range of `v[lo..hi]`.
pub fn strip_range(v: &Vec<char>, lo: usize, hi: usize, set: &CharSet) -> (r: (usize, usize))
    requires
        lo <= hi <= v.len(),
    ensures
        lo <= r.0 <= r.1 <= hi,
        strip(v@.subrange(lo as int, hi as int), *set) == v@.subrange(r.0 as int, r.1 as int),
{
    let a = lstrip_index(v, lo, hi, set);
    let b = rstrip_index(v, a, hi, set);
    (a, b)
}

// ---------------------------------------------------------------------------
// Conversions between `str`, `String` and `Vec<char>`
// ---------------------------------------------------------------------------

/// The characters of a string slice.
pub fn chars_of(s: &str) -> (v: Vec<char>)
    ensures
        v@ == s@,
{
    let mut v: Vec<char> = Vec::new();
    for c in it: s.chars()
        invariant
            v@ == it.seq().take(it.index() as int),
            it.seq() == s@,
    {
        v.push(c);
    }
    v
}

/// Appends one character (`String::push`).
#[verifier::external_body]
pub(crate) fn push_char(s: &mut String, c: char)
    ensures
        final(s)@ == old(s)@.push(c),
{
    s.push(c);
}

/// Appends `v[lo..hi]`.
pub fn push_range(s: &mut String, v: &Vec<char>, lo: usize, hi: usize)
    requires
        lo <= hi <= v.len(),
    ensures
        final(s)@ == old(s)@ + v@.subrange(lo as int, hi as int),
{
    let ghost start = s@;
    let mut i = lo;
    while i < hi
        invariant
            lo <= i <= hi <= v.len(),
            s@ == start + v@.subrange(lo as int, i as int),
        decreases hi - i,
    {
        push_char(s, v[i]);
        assert(v@.subrange(lo as int, i + 1) =~= v@.subrange(lo as int, i as int).push(v@[i as int]));
        i = i + 1;
    }
}

/// A fresh string holding `v[lo..hi]`.
pub fn string_of_range(v: &Vec<char>, lo: usize, hi: usize) -> (s: String)
    requires
        lo <= hi <= v.len(),
    ensures
        s@ == v@.subrange(lo as int, hi as int),
{
    let mut s = String::new();
    push_range(&mut s, v, lo, hi);
    s
}

/// `s.trim().to_string()`.
pub fn trimmed(s: &str) -> (r: String)
    ensures
        r@ == trim(s@),
{
    let v = chars_of(s);
    let (a, b) = strip_range(&v, 0, v.len(), &CharSet::Space);
    assert(v@.subrange(0, v@.len() as int) =~= v@);
    string_of_range(&v, a, b)
}

/// Whether `s` is empty once trimmed.
pub fn blank(s: &str) -> (b: bool)
    ensures
        b == is_blank(s@),
{
    let v = chars_of(s);
    let (a, b) = strip_range(&v, 0, v.len(), &CharSet::Space);
    assert(v@.subrange(0, v@.len() as int) =~= v@);
    a == b
}


// ---------------------------------------------------------------------------
// Search
// ---------------------------------------------------------------------------

/// Index of the first occurrence of `pat` in `s` (`str::find`, counted in chars).
pub open spec fn find(s: Seq<char>, pat: Seq<char>) -> Option<int>
    decreases s.len(),
{
    if pat.is_prefix_of(s) {
        Some(0)
    } else if s.len() == 0 {
        None
    } else {
        match find(s.drop_first(), pat) {
            Some(k) => Some(k + 1),
            None => None,
        }
    }
}

/// Whether `pat` occurs in `s`.
pub open spec fn contains(s: Seq<char>, pat: Seq<char>) -> bool {
    find(s, pat) is Some
}

/// Index of the last occurrence of `c` in `s`.
pub open spec fn rfind_char(s: Seq<char>, c: char) -> Option<int>
    decreases s.len(),
{
    if s.len() == 0 {
        None
    } else if s.last() == c {
        Some(s.len() - 1)
    } else {
        rfind_char(s.drop_last(), c)
    }
}

pub open spec fn shift(o: Option<int>, d: int) -> Option<int> {
    match o {
        Some(k) => Some(k + d),
        None => None,
    }
}

pub proof fn lemma_find_bounds(s: Seq<char>, pat: Seq<char>)
    ensures
        find(s, pat) matches Some(k) ==> 0 <= k && k + pat.len() <= s.len() && s.subrange(
            k,
            k + pat.len(),
        ) == pat,
        find(s, pat) matches Some(k) ==> forall|j: int|
            0 <= j < k ==> !pat.is_prefix_of(#[trigger] s.skip(j)),
        find(s, pat) is None ==> forall|j: int|
            0 <= j <= s.len() ==> !pat.is_prefix_of(#[trigger] s.skip(j)),
    decreases s.len(),
{
    if pat.is_prefix_of(s) {
    } else if s.len() == 0 {
        assert(s.skip(0) =~= s);
    } else {
        lemma_find_bounds(s.drop_first(), pat);
        assert(s.skip(0) =~= s);
        assert forall|j: int| 1 <= j <= s.len() implies #[trigger] s.skip(j) =~= s.drop_first().skip(
            j - 1,
        ) by {}
        if let Some(k) = find(s.drop_first(), pat) {
            assert(s.drop_first().subrange(k, k + pat.len()) =~= s.subrange(k + 1, k + 1 + pat.len()));
            assert forall|j: int| 0 <= j < k + 1 implies !pat.is_prefix_of(#[trigger] s.skip(j)) by {
                if j >= 1 {
                    assert(s.skip(j) =~= s.drop_first().skip(j - 1));
                }
            }
        } else {
            assert forall|j: int| 0 <= j <= s.len() implies !pat.is_prefix_of(#[trigger] s.skip(j)) by {
                if j >= 1 {
                    assert(s.skip(j) =~= s.drop_first().skip(j - 1));
                }
            }
        }
    }
}

/// Whether `pat` occurs in `v` at position `i`.
pub fn occurs_at(v: &Vec<char>, i: usize, pat: &Vec<char>) -> (b: bool)
    requires
        i <= v.len(),
    ensures
        b == pat@.is_prefix_of(v@.skip(i as int)),
{
    if pat.len() > v.len() - i {
        return false;
    }
    let mut j: usize = 0;
    while j < pat.len()
        invariant
            pat.len() <= v.len() - i,
            j <= pat.len(),
            forall|t: int| 0 <= t < j ==> pat@[t] == v@[i + t],
        decreases pat.len() - j,
    {
        if pat[j] != v[i + j] {
            assert(v@.skip(i as int).subrange(0, pat@.len() as int)[j as int] == v@[i + j]);
            return false;
        }
        j = j + 1;
    }
    assert(pat@ =~= v@.skip(i as int).subrange(0, pat@.len() as int));
    true
}

/// First occurrence of `pat` at or after `from`, as an absolute index.
pub fn find_from(v: &Vec<char>, from: usize, pat: &Vec<char>) -> (r: Option<usize>)
    requires
        from <= v.len(),
    ensures
        shift(find(v@.skip(from as int), pat@), from as int) == match r {
            Some(i) => Some(i as int),
            None => None::<int>,
        },
{
    let mut i = from;
    loop
        invariant
            from <= i <= v.len(),
            find(v@.skip(from as int), pat@) == shift(find(v@.skip(i as int), pat@), i - from),
        decreases v.len() - i,
    {
        if occurs_at(v, i, pat) {
            return Some(i);
        }
        if i == v.len() {
            return None;
        }
        assert(v@.skip(i as int).drop_first() =~= v@.skip(i + 1));
        i = i + 1;
    }
}

/// Last occurrence of `c` in `v[..hi]`.
pub fn rfind_char_in(v: &Vec<char>, hi: usize, c: char) -> (r: Option<usize>)
    requires
        hi <= v.len(),
    ensures
        rfind_char(v@.take(hi as int), c) == match r {
            Some(i) => Some(i as int),
            None => None::<int>,
        },
        r matches Some(i) ==> i < hi && v@[i as int] == c,
{
    let mut j = hi;
    while j > 0
        invariant
            j <= hi <= v.len(),
            rfind_char(v@.take(hi as int), c) == rfind_char(v@.take(j as int), c),
        decreases j,
    {
        if v[j - 1] == c {
            return Some(j - 1);
        }
        assert(v@.take(j as int).drop_last() =~= v@.take(j - 1));
        j = j - 1;
    }
    None
}

/// The characters of a string literal or slice as a vector (alias of [`chars_of`]).
pub fn pattern(s: &str) -> (v: Vec<char>)
    ensures
        v@ == s@,
{
    chars_of(s)
}

/// Sequence equality of two character vectors.
pub fn chars_eq(a: &Vec<char>, b: &Vec<char>) -> (r: bool)
    ensures
        r == (a@ == b@),
{
    if a.len() != b.len() {
        return false;
    }
    let mut i: usize = 0;
    while i < a.len()
        invariant
            a.len() == b.len(),
            i <= a.len(),
            forall|t: int| 0 <= t < i ==> a@[t] == b@[t],
        decreases a.len() - i,
    {
        if a[i] != b[i] {
            return false;
        }
        i = i + 1;
    }
    assert(a@ =~= b@);
    true
}

/// Equality of two string slices by their characters.
pub fn str_eq(a: &str, b: &str) -> (r: bool)
    ensures
        r == (a@ == b@),
{
    chars_eq(&chars_of(a), &chars_of(b))
}


// ---------------------------------------------------------------------------
// Lines (`str::lines`)
// ---------------------------------------------------------------------------

/// Length of the first line: index of the first `'\n'`, or the whole length.
pub open spec fn line_end(s: Seq<char>) -> int
    decreases s.len(),
{
    if s.len() == 0 || s[0] == '\n' {
        0
    } else {
        1 + line_end(s.drop_first())
    }
}

pub proof fn lemma_line_end(s: Seq<char>)
    ensures
        0 <= line_end(s) <= s.len(),
        line_end(s) < s.len() ==> s[line_end(s)] == '\n',
        forall|i: int| 0 <= i < line_end(s) ==> s[i] != '\n',
    decreases s.len(),
{
    if s.len() == 0 || s[0] == '\n' {
    } else {
        lemma_line_end(s.drop_first());
        assert forall|i: int| 0 <= i < line_end(s) implies s[i] != '\n' by {
            if i > 0 {
                assert(s[i] == s.drop_first()[i - 1]);
            }
        }
    }
}

/// A line without the `'\r'` of a `"\r\n"` ending.
pub open spec fn chomp_cr(s: Seq<char>) -> Seq<char> {
    if s.len() > 0 && s.last() == '\r' {
        s.drop_last()
    } else {
        s
    }
}

/// `str::lines`: pieces split at `'\n'` (a `"\r\n"` ending loses its `'\r'`),
/// with no empty piece after a final newline.
pub open spec fn lines(s: Seq<char>) -> Seq<Seq<char>>
    decreases s.len(),
{
    if s.len() == 0 {
        seq![]
    } else {
        let k = line_end(s);
        if k < s.len() {
            proof {
                lemma_line_end(s);
            }
            seq![chomp_cr(s.take(k))] + lines(s.skip(k + 1))
        } else {
            seq![s]
        }
    }
}

/// The character ranges of the lines of `v` (see [`lines`]).
pub fn line_ranges(v: &Vec<char>) -> (r: Vec<(usize, usize)>)
    ensures
        r@.len() == lines(v@).len(),
        forall|i: int| 0 <= i < r@.len() ==> (#[trigger] r@[i]).0 <= r@[i].1 <= v@.len(),
        forall|i: int|
            0 <= i < r@.len() ==> #[trigger] lines(v@)[i] == v@.subrange(
                r@[i].0 as int,
                r@[i].1 as int,
            ),
{
    let mut r: Vec<(usize, usize)> = Vec::new();
    let mut p: usize = 0;
    let ghost mut done: Seq<Seq<char>> = seq![];
    assert(v@.skip(0) =~= v@);
    while p < v.len()
        invariant
            p <= v.len(),
            r@.len() == done.len(),
            lines(v@) == done + lines(v@.skip(p as int)),
            forall|i: int| 0 <= i < r@.len() ==> (#[trigger] r@[i]).0 <= r@[i].1 <= v@.len(),
            forall|i: int|
                0 <= i < r@.len() ==> #[trigger] done[i] == v@.subrange(
                    r@[i].0 as int,
                    r@[i].1 as int,
                ),
        decreases v.len() - p,
    {
        let ghost rest = v@.skip(p as int);
        let mut q = p;
        while q < v.len() && v[q] != '\n'
            invariant
                p <= q <= v.len(),
                rest == v@.skip(p as int),
                line_end(rest) == (q - p) + line_end(v@.skip(q as int)),
            decreases v.len() - q,
        {
            assert(v@.skip(q as int).drop_first() =~= v@.skip(q + 1));
            q = q + 1;
        }
        proof {
            lemma_line_end(rest);
        }
        if q < v.len() {
            assert(line_end(rest) == q - p);
            let e = if q > p && v[q - 1] == '\r' {
                q - 1
            } else {
                q
            };
            assert(rest.take(q - p) =~= v@.subrange(p as int, q as int));
            assert(chomp_cr(rest.take(q - p)) =~= v@.subrange(p as int, e as int));
            assert(rest.skip(q - p + 1) =~= v@.skip(q + 1));
            let ghost old_done = done;
            let ghost old_r = r@;
            r.push((p, e));
            proof {
                done = done.push(v@.subrange(p as int, e as int));
                assert forall|i: int| 0 <= i < r@.len() implies #[trigger] done[i] == v@.subrange(
                    r@[i].0 as int,
                    r@[i].1 as int,
                ) by {
                    if i < old_r.len() {
                        assert(done[i] == old_done[i]);
                        assert(r@[i] == old_r[i]);
                    }
                }
            }
            p = q + 1;
        } else {
            assert(line_end(rest) == q - p);
            assert(rest =~= v@.subrange(p as int, q as int));
            assert(v@.skip(q as int).len() == 0);
            let ghost old_done = done;
            let ghost old_r = r@;
            r.push((p, q));
            proof {
                done = done.push(v@.subrange(p as int, q as int));
                assert forall|i: int| 0 <= i < r@.len() implies #[trigger] done[i] == v@.subrange(
                    r@[i].0 as int,
                    r@[i].1 as int,
                ) by {
                    if i < old_r.len() {
                        assert(done[i] == old_done[i]);
                        assert(r@[i] == old_r[i]);
                    }
                }
                assert(v@.skip(v@.len() as int) =~= Seq::<char>::empty());
            }
            p = q;
        }
    }
    assert(v@.skip(p as int) =~= Seq::<char>::empty());
    assert(done + lines(v@.skip(p as int)) =~= done);
    assert(lines(v@) == done);
    r
}

// ---------------------------------------------------------------------------
// Decimal rendering and parsing
// ---------------------------------------------------------------------------

/// The ASCII digit for `d` (`0 <= d < 10`).
pub open spec fn digit_char(d: int) -> char {
    (48 + d) as char
}

/// Decimal rendering of a natural number, without leading zeros.
pub open spec fn dec(n: nat) -> Seq<char>
    decreases n,
{
    if n < 10 {
        seq![digit_char(n as int)]
    } else {
        dec(n / 10).push(digit_char((n % 10) as int))
    }
}

/// `n` rendered in decimal, left-padded with `'0'` to at least `width` characters.
pub open spec fn dec_padded(n: nat, width: nat) -> Seq<char> {
    let pad: nat = if width > dec(n).len() {
        (width - dec(n).len()) as nat
    } else {
        0
    };
    Seq::new(pad, |i: int| '0') + dec(n)
}

fn digit_of(d: u64) -> (c: char)
    requires
        d < 10,
    ensures
        c == digit_char(d as int),
{
    let b: u8 = 48u8 + d as u8;
    b as char
}

/// Appends the decimal rendering of `n`.
pub fn push_dec(s: &mut String, n: u64)
    ensures
        final(s)@ == old(s)@ + dec(n as nat),
    decreases n,
{
    if n >= 10 {
        push_dec(s, n / 10);
    }
    let c = digit_of(n % 10);
    push_char(s, c);
    assert(final(s)@ =~= old(s)@ + dec(n as nat));
}

/// Appends the decimal rendering of `n`, zero-padded to `width`.
pub fn push_dec_padded(s: &mut String, n: u64, width: usize)
    ensures
        final(s)@ == old(s)@ + dec_padded(n as nat, width as nat),
{
    let mut digits = String::new();
    push_dec(&mut digits, n);
    let dv = chars_of(digits.as_str());
    let ghost start = s@;
    let mut k: usize = dv.len();
    let ghost pad_len: int = if width >= dv.len() { width - dv.len() } else { 0 };
    let mut z: usize = 0;
    while k < width
        invariant
            dv@ == dec(n as nat),
            k - dv.len() == z,
            k >= dv.len(),
            k <= width || z == 0,
            s@ == start + Seq::new(z as nat, |i: int| '0'),
        decreases width - k,
    {
        push_char(s, '0');
        assert(Seq::new((z + 1) as nat, |i: int| '0') =~= Seq::new(z as nat, |i: int| '0').push('0'));
        k = k + 1;
        z = z + 1;
    }
    push_range(s, &dv, 0, dv.len());
    assert(dv@.subrange(0, dv@.len() as int) =~= dv@);
}

/// Whether every character is an ASCII digit.
pub open spec fn all_digits(s: Seq<char>) -> bool {
    forall|i: int| 0 <= i < s.len() ==> '0' <= #[trigger] s[i] && s[i] <= '9'
}

/// Value of a string of ASCII digits.
pub open spec fn digits_value(s: Seq<char>) -> int
    decreases s.len(),
{
    if s.len() == 0 {
        0
    } else {
        digits_value(s.drop_last()) * 10 + (s.last() as int - 48)
    }
}

/// `str::parse::<u64>`: an optional `'+'`, then one or more ASCII digits whose
/// value fits in `u64`.
pub open spec fn parse_u64(s: Seq<char>) -> Option<u64> {
    let body = if s.len() > 0 && s[0] == '+' {
        s.drop_first()
    } else {
        s
    };
    if body.len() > 0 && all_digits(body) && digits_value(body) <= u64::MAX {
        Some(digits_value(body) as u64)
    } else {
        None
    }
}

proof fn lemma_digits_value_nonneg(s: Seq<char>)
    requires
        all_digits(s),
    ensures
        digits_value(s) >= 0,
    decreases s.len(),
{
    if s.len() > 0 {
        lemma_digits_value_nonneg(s.drop_last());
    }
}

proof fn lemma_digits_value_mono(s: Seq<char>, j: int)
    requires
        all_digits(s),
        0 <= j <= s.len(),
    ensures
        digits_value(s.take(j)) <= digits_value(s),
    decreases s.len() - j,
{
    if j < s.len() {
        lemma_digits_value_mono(s, j + 1);
        assert(s.take(j + 1).drop_last() =~= s.take(j));
        lemma_digits_value_nonneg(s.take(j));
    } else {
        assert(s.take(j) =~= s);
    }
}

/// A decimal rendering reads back as the number.
pub proof fn lemma_dec_digits(n: nat)
    ensures
        dec(n).len() > 0,
        all_digits(dec(n)),
        digits_value(dec(n)) == n,
        dec(n)[0] != '+',
    decreases n,
{
    if n >= 10 {
        lemma_dec_digits(n / 10);
        let d = dec(n / 10);
        let e = dec(n);
        assert(e.drop_last() =~= d);
        assert(forall|i: int| 0 <= i < d.len() ==> e[i] == d[i]);
        assert(e.last() == digit_char((n % 10) as int));
        assert(digit_char((n % 10) as int) as int == 48 + n % 10);
        assert(digits_value(e) == digits_value(d) * 10 + (e.last() as int - 48));
        assert((n / 10) * 10 + n % 10 == n) by (nonlinear_arith);
        assert(digits_value(d) == n / 10);
        assert(digits_value(e) == (n / 10) * 10 + n % 10);
    } else {
        let e = dec(n);
        assert(e.drop_last() =~= Seq::<char>::empty());
        assert(digit_char(n as int) as int == 48 + n);
        assert(digits_value(e) == digits_value(e.drop_last()) * 10 + (e.last() as int - 48));
    }
}

/// `parse_u64` of a decimal rendering gives the number back.
pub proof fn lemma_parse_dec(n: u64)
    ensures
        parse_u64(dec(n as nat)) == Some(n),
{
    lemma_dec_digits(n as nat);
}

/// Parses an unsigned decimal number the way `str::parse::<u64>` does.
pub fn parse_u64_chars(v: &Vec<char>, lo: usize, hi: usize) -> (r: Option<u64>)
    requires
        lo <= hi <= v.len(),
    ensures
        r == parse_u64(v@.subrange(lo as int, hi as int)),
{
    let ghost s = v@.subrange(lo as int, hi as int);
    let mut start = lo;
    if start < hi && v[start] == '+' {
        start = start + 1;
    }
    let ghost body = v@.subrange(start as int, hi as int);
    assert(body =~= (if s.len() > 0 && s[0] == '+' { s.drop_first() } else { s }));
    if start == hi {
        return None;
    }
    let mut acc: u64 = 0;
    let mut i = start;
    while i < hi
        invariant
            lo <= start < hi <= v.len(),
            start <= i <= hi,
            body == v@.subrange(start as int, hi as int),
            s == v@.subrange(lo as int, hi as int),
            body == (if s.len() > 0 && s[0] == '+' { s.drop_first() } else { s }),
            all_digits(body.take(i - start)),
            acc as int == digits_value(body.take(i - start)),
        decreases hi - i,
    {
        let c = v[i];
        if !('0' <= c && c <= '9') {
            assert(body[i - start] == c);
            return None;
        }
        let d = (c as u32 - 48) as u64;
        assert(body.take(i - start + 1).drop_last() =~= body.take(i - start));
        let m = acc.checked_mul(10);
        match m {
            None => {
                proof {
                    assert(all_digits(body.take(i - start + 1)));
                    lemma_digits_value_nonneg(body.take(i - start));
                    if all_digits(body) {
                        lemma_digits_value_mono(body, i - start + 1);
                    }
                }
                return None;
            },
            Some(m10) => {
                match m10.checked_add(d) {
                    None => {
                        proof {
                            if all_digits(body) {
                                lemma_digits_value_mono(body, i - start + 1);
                            }
                        }
                        return None;
                    },
                    Some(next) => {
                        acc = next;
                    },
                }
            },
        }
        i = i + 1;
    }
    assert(body.take(i - start) =~= body);
    Some(acc)
}

/// `s.trim().parse::<u64>().ok()`.
pub fn parse_u64_trimmed(s: &str) -> (r: Option<u64>)
    ensures
        r == parse_u64(trim(s@)),
{
    let v = chars_of(s);
    let (a, b) = strip_range(&v, 0, v.len(), &CharSet::Space);
    assert(v@.subrange(0, v@.len() as int) =~= v@);
    parse_u64_chars(&v, a, b)
}


// ---------------------------------------------------------------------------
// Lists of strings
// ---------------------------------------------------------------------------

/// The character views of a list of strings.
pub open spec fn strs(v: Seq<String>) -> Seq<Seq<char>> {
    v.map_values(|s: String| s@)
}

/// The parts joined with `sep` between consecutive parts (`[..].join(sep)`).
pub open spec fn join(parts: Seq<Seq<char>>, sep: Seq<char>) -> Seq<char>
    decreases parts.len(),
{
    if parts.len() == 0 {
        seq![]
    } else if parts.len() == 1 {
        parts[0]
    } else {
        join(parts.drop_last(), sep) + sep + parts.last()
    }
}

/// The parts concatenated (`collect::<String>()`).
pub open spec fn concat(parts: Seq<Seq<char>>) -> Seq<char>
    decreases parts.len(),
{
    if parts.len() == 0 {
        seq![]
    } else {
        concat(parts.drop_last()) + parts.last()
    }
}

/// Pushes a copy of `s` onto `v`.
pub fn push_str(v: &mut Vec<String>, s: &str)
    ensures
        strs(final(v)@) == strs(old(v)@).push(s@),
{
    v.push(String::from_str(s));
    assert(strs(final(v)@) =~= strs(old(v)@).push(s@));
}

/// Pushes `s` onto `v`.
pub fn push_string(v: &mut Vec<String>, s: String)
    ensures
        strs(final(v)@) == strs(old(v)@).push(s@),
{
    let ghost sv = s@;
    v.push(s);
    assert(strs(final(v)@) =~= strs(old(v)@).push(sv));
}

/// Joins the strings with `sep`.
pub fn join_strings(v: &Vec<String>, sep: &str) -> (r: String)
    ensures
        r@ == join(strs(v@), sep@),
{
    let mut r = String::new();
    let mut i: usize = 0;
    while i < v.len()
        invariant
            i <= v.len(),
            r@ == join(strs(v@).take(i as int), sep@),
        decreases v.len() - i,
    {
        assert(strs(v@).take(i + 1).drop_last() =~= strs(v@).take(i as int));
        if i > 0 {
            r.append(sep);
        }
        r.append(v[i].as_str());
        assert(strs(v@).take(i + 1).last() == v@[i as int]@);
        i = i + 1;
    }
    assert(strs(v@).take(v.len() as int) =~= strs(v@));
    r
}


// ---------------------------------------------------------------------------
// Splitting at a character
// ---------------------------------------------------------------------------

/// `str::split(c)`: the pieces between occurrences of `c` (empty pieces kept).
pub open spec fn split_char(s: Seq<char>, c: char) -> Seq<Seq<char>>
    decreases s.len(),
{
    match find(s, seq![c]) {
        None => seq![s],
        Some(k) => {
            proof {
                lemma_find_bounds(s, seq![c]);
            }
            seq![s.take(k)] + split_char(s.skip(k + 1), c)
        },
    }
}

/// The part before the first `c` (`split(c).next()`): the whole when absent.
pub open spec fn before_first(s: Seq<char>, c: char) -> Seq<char> {
    match find(s, seq![c]) {
        Some(k) => s.take(k),
        None => s,
    }
}

/// The part after the last `c` (`rsplit(c).next()`): the whole when absent.
pub open spec fn after_last(s: Seq<char>, c: char) -> Seq<char> {
    match rfind_char(s, c) {
        Some(k) => s.skip(k + 1),
        None => s,
    }
}

/// `split_once(c)`: the parts around the first `c`.
pub open spec fn split_once(s: Seq<char>, c: char) -> Option<(Seq<char>, Seq<char>)> {
    match find(s, seq![c]) {
        Some(k) => Some((s.take(k), s.skip(k + 1))),
        None => None,
    }
}

/// First occurrence of `c` in `v[lo..hi]` (absolute index).
pub fn find_char_in(v: &Vec<char>, lo: usize, hi: usize, c: char) -> (r: Option<usize>)
    requires
        lo <= hi <= v.len(),
    ensures
        shift(find(v@.subrange(lo as int, hi as int), seq![c]), lo as int) == match r {
            Some(i) => Some(i as int),
            None => None::<int>,
        },
        r matches Some(i) ==> lo <= i < hi && v@[i as int] == c,
{
    let mut i = lo;
    loop
        invariant
            lo <= i <= hi <= v.len(),
            find(v@.subrange(lo as int, hi as int), seq![c]) == shift(
                find(v@.subrange(i as int, hi as int), seq![c]),
                i - lo,
            ),
        decreases hi - i,
    {
        let ghost rest = v@.subrange(i as int, hi as int);
        if i == hi {
            assert(!seq![c].is_prefix_of(rest));
            return None;
        }
        if v[i] == c {
            assert(seq![c].is_prefix_of(rest)) by {
                assert(rest.subrange(0, 1) =~= seq![c]);
            }
            return Some(i);
        }
        assert(!seq![c].is_prefix_of(rest)) by {
            assert(rest.subrange(0, 1)[0] == v@[i as int]);
        }
        assert(rest.drop_first() =~= v@.subrange(i + 1, hi as int));
        i = i + 1;
    }
}

/// The ranges of `split_char(v[lo..hi], c)`.
pub fn split_ranges(v: &Vec<char>, lo: usize, hi: usize, c: char) -> (r: Vec<(usize, usize)>)
    requires
        lo <= hi <= v.len(),
    ensures
        r@.len() == split_char(v@.subrange(lo as int, hi as int), c).len(),
        forall|i: int| 0 <= i < r@.len() ==> lo <= (#[trigger] r@[i]).0 <= r@[i].1 <= hi,
        forall|i: int|
            0 <= i < r@.len() ==> #[trigger] split_char(v@.subrange(lo as int, hi as int), c)[i]
                == v@.subrange(r@[i].0 as int, r@[i].1 as int),
{
    let mut r: Vec<(usize, usize)> = Vec::new();
    let mut p = lo;
    let ghost mut done: Seq<Seq<char>> = seq![];
    loop
        invariant
            lo <= p <= hi <= v.len(),
            r@.len() == done.len(),
            split_char(v@.subrange(lo as int, hi as int), c) == done + split_char(
                v@.subrange(p as int, hi as int),
                c,
            ),
            forall|i: int| 0 <= i < r@.len() ==> lo <= (#[trigger] r@[i]).0 <= r@[i].1 <= hi,
            forall|i: int|
                0 <= i < r@.len() ==> #[trigger] done[i] == v@.subrange(
                    r@[i].0 as int,
                    r@[i].1 as int,
                ),
        decreases hi - p,
    {
        let ghost rest = v@.subrange(p as int, hi as int);
        let ghost old_done = done;
        let ghost old_r = r@;
        match find_char_in(v, p, hi, c) {
            None => {
                r.push((p, hi));
                proof {
                    done = done.push(rest);
                    assert forall|i: int| 0 <= i < r@.len() implies #[trigger] done[i]
                        == v@.subrange(r@[i].0 as int, r@[i].1 as int) by {
                        if i < old_r.len() {
                            assert(done[i] == old_done[i]);
                            assert(r@[i] == old_r[i]);
                        }
                    }
                    assert(split_char(rest, c) =~= seq![rest]);
                    assert(old_done + seq![rest] =~= done);
                }
                return r;
            },
            Some(k) => {
                r.push((p, k));
                proof {
                    done = done.push(v@.subrange(p as int, k as int));
                    assert forall|i: int| 0 <= i < r@.len() implies #[trigger] done[i]
                        == v@.subrange(r@[i].0 as int, r@[i].1 as int) by {
                        if i < old_r.len() {
                            assert(done[i] == old_done[i]);
                            assert(r@[i] == old_r[i]);
                        }
                    }
                    assert(rest.take(k - p) =~= v@.subrange(p as int, k as int));
                    assert(rest.skip(k - p + 1) =~= v@.subrange(k + 1, hi as int));
                    assert(old_done + split_char(rest, c) =~= done + split_char(
                        v@.subrange(k + 1, hi as int),
                        c,
                    ));
                }
                p = k + 1;
            },
        }
    }
}

/// Index of the last `c` in `v[lo..hi]`, as `rsplit(c).next()` needs it.
pub fn after_last_index(v: &Vec<char>, lo: usize, hi: usize, c: char) -> (i: usize)
    requires
        lo <= hi <= v.len(),
    ensures
        lo <= i <= hi,
        after_last(v@.subrange(lo as int, hi as int), c) == v@.subrange(i as int, hi as int),
{
    let mut j = hi;
    while j > lo
        invariant
            lo <= j <= hi <= v.len(),
            rfind_char(v@.subrange(lo as int, hi as int), c) == rfind_char(v@.subrange(lo as int, j as int), c),
        decreases j - lo,
    {
        if v[j - 1] == c {
            assert(v@.subrange(lo as int, hi as int).skip(j - lo) =~= v@.subrange(j as int, hi as int));
            return j;
        }
        assert(v@.subrange(lo as int, j as int).drop_last() =~= v@.subrange(lo as int, j - 1));
        j = j - 1;
    }
    lo
}


/// `s.split(c)` collected into strings.
pub fn split_strings(s: &str, c: char) -> (r: Vec<String>)
    ensures
        strs(r@) == split_char(s@, c),
{
    let v = chars_of(s);
    let rs = split_ranges(&v, 0, v.len(), c);
    assert(v@.subrange(0, v@.len() as int) =~= v@);
    let mut out: Vec<String> = Vec::new();
    let mut i: usize = 0;
    while i < rs.len()
        invariant
            v@ == s@,
            i <= rs@.len(),
            rs@.len() == split_char(v@, c).len(),
            forall|k: int| 0 <= k < rs@.len() ==> 0 <= (#[trigger] rs@[k]).0 <= rs@[k].1 <= v@.len(),
            forall|k: int|
                0 <= k < rs@.len() ==> #[trigger] split_char(v@, c)[k] == v@.subrange(
                    rs@[k].0 as int,
                    rs@[k].1 as int,
                ),
            strs(out@) == split_char(v@, c).take(i as int),
        decreases rs.len() - i,
    {
        let (a, b) = rs[i];
        let piece = string_of_range(&v, a, b);
        push_string(&mut out, piece);
        assert(split_char(v@, c).take(i + 1) =~= split_char(v@, c).take(i as int).push(
            split_char(v@, c)[i as int],
        ));
        i = i + 1;
    }
    assert(split_char(v@, c).take(rs@.len() as int) =~= split_char(v@, c));
    out
}

/// `s.split_once(c)`, the two parts as strings.
pub fn split_once_strings(s: &str, c: char) -> (r: Option<(String, String)>)
    ensures
        match (r, split_once(s@, c)) {
            (Some((a, b)), Some((x, y))) => a@ == x && b@ == y,
            (None, None) => true,
            _ => false,
        },
{
    let v = chars_of(s);
    assert(v@.subrange(0, v@.len() as int) =~= v@);
    match find_char_in(&v, 0, v.len(), c) {
        Some(k) => {
            assert(v@.subrange(0, k as int) =~= v@.take(k as int));
            assert(v@.subrange(k + 1, v@.len() as int) =~= v@.skip(k + 1));
            Some((string_of_range(&v, 0, k), string_of_range(&v, k + 1, v.len())))
        },
        None => None,
    }
}

} // verus!
