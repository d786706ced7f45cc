//! The asset register of a hub (`assets.json`): one entry per file, kept in
//! path order, each with the SHA-256 of the file's bytes.
use vstd::prelude::*;
use crate::codec::{hex_lower, sha256_hex, sha256_of};
use crate::doc::{
    key_less, key_lt, lemma_key_lt_asymmetric, lemma_key_lt_total, lemma_key_lt_transitive,
};
use crate::text::{chars_eq, chars_of};

verus! {

/// One registered file.
#[derive(Debug, Clone)]
pub struct AssetItem {
    /// Path relative to the hub root.
    pub path: String,
    /// SHA-256 of the bytes, lower-case hexadecimal.
    pub sha256: String,
    pub bytes: u64,
    /// `ai` or `import`.
    pub source: String,
    /// The object the file belongs to (such as `characters/<slug>`).
    pub ref_obj: String,
}

fn copy_item(a: &AssetItem) -> (r: AssetItem)
    ensures
        r == *a,
{
    AssetItem {
        path: a.path.clone(),
        sha256: a.sha256.clone(),
        bytes: a.bytes,
        source: a.source.clone(),
        ref_obj: a.ref_obj.clone(),
    }
}

/// The register entry of a file's bytes.
pub fn asset_entry(rel: &str, bytes: &[u8], source: &str, ref_obj: &str) -> (r: AssetItem)
    ensures
        r.path@ == rel@,
        r.sha256@ == hex_lower(sha256_of(bytes@)),
        r.bytes == bytes@.len(),
        r.source@ == source@,
        r.ref_obj@ == ref_obj@,
{
    AssetItem {
        path: String::from_str(rel),
        sha256: sha256_hex(bytes),
        bytes: bytes.len() as u64,
        source: String::from_str(source),
        ref_obj: String::from_str(ref_obj),
    }
}

/// `x` placed after the last entry whose path is not above its own (the
/// step of a stable sort by path).
pub open spec fn insert_by_path(s: Seq<AssetItem>, x: AssetItem) -> Seq<AssetItem>
    decreases s.len(),
{
    if s.len() == 0 {
        seq![x]
    } else if key_lt(x.path@, s.last().path@) {
        insert_by_path(s.drop_last(), x).push(s.last())
    } else {
        s.push(x)
    }
}

/// The entries stably sorted by path (equal paths keep their order).
pub open spec fn sort_by_path(s: Seq<AssetItem>) -> Seq<AssetItem>
    decreases s.len(),
{
    if s.len() == 0 {
        seq![]
    } else {
        insert_by_path(sort_by_path(s.drop_last()), s.last())
    }
}

/// The entries whose path differs from `p`.
pub open spec fn without_path(s: Seq<AssetItem>, p: Seq<char>) -> Seq<AssetItem>
    decreases s.len(),
{
    if s.len() == 0 {
        seq![]
    } else if s.last().path@ == p {
        without_path(s.drop_last(), p)
    } else {
        without_path(s.drop_last(), p).push(s.last())
    }
}

/// The register after a file is (re)registered: its old entries dropped,
/// the new entry added, everything stably sorted by path.
pub open spec fn registered(items: Seq<AssetItem>, item: AssetItem) -> Seq<AssetItem> {
    sort_by_path(without_path(items, item.path@).push(item))
}

fn insert_sorted(out: &mut Vec<AssetItem>, x: AssetItem)
    ensures
        final(out)@ == insert_by_path(old(out)@, x),
{
    let xk = chars_of(x.path.as_str());
    let mut j = out.len();
    let ghost s = out@;
    assert(s.take(s.len() as int) =~= s);
    assert(s.skip(s.len() as int) =~= Seq::<AssetItem>::empty());
    while j > 0
        invariant
            j <= s.len(),
            out@ == s,
            xk@ == x.path@,
            insert_by_path(s, x) == insert_by_path(s.take(j as int), x) + s.skip(j as int),
        ensures
            j <= s.len(),
            out@ == s,
            insert_by_path(s, x) == insert_by_path(s.take(j as int), x) + s.skip(j as int),
            j == 0 || !key_lt(x.path@, s[j - 1].path@),
        decreases j,
    {
        let kc = chars_of(out[j - 1].path.as_str());
        if !key_less(&xk, &kc) {
            break;
        }
        proof {
            let t = s.take(j as int);
            assert(t.drop_last() =~= s.take(j - 1));
            assert(t.last() == s[j - 1]);
            assert(insert_by_path(t, x) == insert_by_path(s.take(j - 1), x).push(s[j - 1]));
            assert(insert_by_path(s.take(j - 1), x).push(s[j - 1]) + s.skip(j as int)
                =~= insert_by_path(s.take(j - 1), x) + s.skip(j - 1));
        }
        j = j - 1;
    }
    proof {
        let t = s.take(j as int);
        if j > 0 {
            assert(t.last() == s[j - 1]);
        }
        assert(insert_by_path(t, x) == t.push(x));
        assert(t.push(x) + s.skip(j as int) =~= s.insert(j as int, x));
    }
    out.insert(j, x);
}

/// Registers a file's entry: entries with the same path are dropped, the
/// entry is added, and the register is stably sorted by path.
pub fn register_asset_item(items: &mut Vec<AssetItem>, item: AssetItem)
    ensures
        final(items)@ == registered(old(items)@, item),
{
    let ghost old_items = items@;
    let pk = chars_of(item.path.as_str());
    let mut kept: Vec<AssetItem> = Vec::new();
    let mut i: usize = 0;
    assert(old_items.take(0) =~= Seq::<AssetItem>::empty());
    while i < items.len()
        invariant
            i <= items@.len(),
            items@ == old_items,
            pk@ == item.path@,
            kept@ == without_path(old_items.take(i as int), item.path@),
        decreases items.len() - i,
    {
        assert(old_items.take(i + 1).drop_last() =~= old_items.take(i as int));
        assert(old_items.take(i + 1).last() == old_items[i as int]);
        let c = chars_of(items[i].path.as_str());
        if !chars_eq(&c, &pk) {
            kept.push(copy_item(&items[i]));
        }
        i = i + 1;
    }
    assert(old_items.take(old_items.len() as int) =~= old_items);
    kept.push(item);
    let ghost all = kept@;
    let mut out: Vec<AssetItem> = Vec::new();
    let mut k: usize = 0;
    assert(all.take(0) =~= Seq::<AssetItem>::empty());
    while k < kept.len()
        invariant
            k <= kept@.len(),
            kept@ == all,
            out@ == sort_by_path(all.take(k as int)),
        decreases kept.len() - k,
    {
        assert(all.take(k + 1).drop_last() =~= all.take(k as int));
        assert(all.take(k + 1).last() == all[k as int]);
        insert_sorted(&mut out, copy_item(&kept[k]));
        k = k + 1;
    }
    assert(all.take(all.len() as int) =~= all);
    *items = out;
}

// ---------------------------------------------------------------------------
// What registration keeps
// ---------------------------------------------------------------------------

/// Paths never decrease along the register.
pub open spec fn path_sorted(s: Seq<AssetItem>) -> bool {
    forall|i: int, j: int| 0 <= i < j < s.len() ==> !key_lt(#[trigger] s[j].path@, #[trigger] s[i].path@)
}

/// How many entries have path `p`.
pub open spec fn path_count(s: Seq<AssetItem>, p: Seq<char>) -> nat
    decreases s.len(),
{
    if s.len() == 0 {
        0
    } else {
        path_count(s.drop_last(), p) + if s.last().path@ == p {
            1nat
        } else {
            0nat
        }
    }
}

proof fn lemma_count_concat(a: Seq<AssetItem>, b: Seq<AssetItem>, p: Seq<char>)
    ensures
        path_count(a + b, p) == path_count(a, p) + path_count(b, p),
    decreases b.len(),
{
    if b.len() == 0 {
        assert(a + b =~= a);
    } else {
        assert((a + b).drop_last() =~= a + b.drop_last());
        lemma_count_concat(a, b.drop_last(), p);
    }
}

proof fn lemma_insert_shape(s: Seq<AssetItem>, x: AssetItem) -> (k: int)
    ensures
        0 <= k <= s.len(),
        insert_by_path(s, x) == s.take(k) + seq![x] + s.skip(k),
        forall|j: int| k <= j < s.len() ==> key_lt(x.path@, #[trigger] s[j].path@),
        k > 0 ==> !key_lt(x.path@, s[k - 1].path@),
    decreases s.len(),
{
    if s.len() == 0 {
        assert(s.take(0) + seq![x] + s.skip(0) =~= seq![x]);
        0
    } else if key_lt(x.path@, s.last().path@) {
        let d = s.drop_last();
        let k = lemma_insert_shape(d, x);
        assert(d.take(k) =~= s.take(k));
        assert((d.take(k) + seq![x] + d.skip(k)).push(s.last()) =~= s.take(k) + seq![x] + s.skip(k));
        assert forall|j: int| k <= j < s.len() implies key_lt(x.path@, #[trigger] s[j].path@) by {
            if j < s.len() - 1 {
                assert(s[j] == d[j]);
            }
        }
        if k > 0 {
            assert(s[k - 1] == d[k - 1]);
        }
        k
    } else {
        assert(s.take(s.len() as int) + seq![x] + s.skip(s.len() as int) =~= s.push(x));
        s.len() as int
    }
}

proof fn lemma_insert_sorted(s: Seq<AssetItem>, x: AssetItem)
    requires
        path_sorted(s),
    ensures
        path_sorted(insert_by_path(s, x)),
        forall|p: Seq<char>| #[trigger] path_count(insert_by_path(s, x), p) == path_count(s, p) + if x.path@ == p {
            1nat
        } else {
            0nat
        },
        insert_by_path(s, x).contains(x),
{
    let k = lemma_insert_shape(s, x);
    let r = insert_by_path(s, x);
    assert(r[k] == x);
    assert forall|a: int, b: int| 0 <= a < b < r.len() implies !key_lt(#[trigger] r[b].path@, #[trigger] r[a].path@) by {
        if b < k {
            assert(r[a] == s[a] && r[b] == s[b]);
        } else if a > k {
            assert(r[a] == s[a - 1] && r[b] == s[b - 1]);
        } else if a < k && b > k {
            assert(r[a] == s[a] && r[b] == s[b - 1]);
            assert(!key_lt(s[b - 1].path@, s[a].path@));
        } else if a == k {
            assert(r[b] == s[b - 1]);
            lemma_key_lt_asymmetric(x.path@, s[b - 1].path@);
        } else {
            assert(r[a] == s[a]);
            if key_lt(x.path@, s[a].path@) {
                if s[a].path@ != s[k - 1].path@ {
                    if a < k - 1 {
                        assert(!key_lt(s[k - 1].path@, s[a].path@));
                    }
                    lemma_key_lt_total(s[a].path@, s[k - 1].path@);
                    lemma_key_lt_transitive(x.path@, s[a].path@, s[k - 1].path@);
                }
            }
        }
    }
    assert forall|p: Seq<char>| #[trigger] path_count(r, p) == path_count(s, p) + if x.path@ == p {
        1nat
    } else {
        0nat
    } by {
        lemma_count_concat(s.take(k) + seq![x], s.skip(k), p);
        lemma_count_concat(s.take(k), seq![x], p);
        lemma_count_concat(s.take(k), s.skip(k), p);
        assert(s.take(k) + s.skip(k) =~= s);
        assert(seq![x].drop_last() =~= Seq::<AssetItem>::empty());
        assert(path_count(Seq::<AssetItem>::empty(), p) == 0);
        assert(path_count(seq![x], p) == if x.path@ == p {
            1nat
        } else {
            0nat
        });
    }
}

proof fn lemma_sort(s: Seq<AssetItem>)
    ensures
        path_sorted(sort_by_path(s)),
        forall|p: Seq<char>| #[trigger] path_count(sort_by_path(s), p) == path_count(s, p),
        forall|y: AssetItem| s.contains(y) ==> #[trigger] sort_by_path(s).contains(y),
    decreases s.len(),
{
    if s.len() > 0 {
        let d = s.drop_last();
        lemma_sort(d);
        lemma_insert_sorted(sort_by_path(d), s.last());
        let k = lemma_insert_shape(sort_by_path(d), s.last());
        let sd0 = sort_by_path(d);
        assert(sort_by_path(s) == sd0.take(k) + seq![s.last()] + sd0.skip(k));
        assert forall|y: AssetItem| s.contains(y) implies #[trigger] sort_by_path(s).contains(y) by {
            let i = choose|i: int| 0 <= i < s.len() && s[i] == y;
            if i < s.len() - 1 {
                assert(d[i] == y);
                assert(d.contains(y));
                let sd = sort_by_path(d);
                assert(sd.contains(y));
                let j = choose|j: int| 0 <= j < sd.len() && sd[j] == y;
                let r = sort_by_path(s);
                let pre = sd.take(k) + seq![s.last()];
                assert(r == pre + sd.skip(k));
                if j < k {
                    assert(pre[j] == sd[j]);
                    assert(r[j] == pre[j]);
                } else {
                    assert(sd.skip(k)[j - k] == sd[j]);
                    assert(r[j + 1] == sd.skip(k)[j - k]);
                }
            } else {
                assert(sort_by_path(s)[k] == s.last());
            }
        }
    } else {
        assert(path_sorted(sort_by_path(s)));
    }
}

proof fn lemma_without_count(s: Seq<AssetItem>, p: Seq<char>)
    ensures
        path_count(without_path(s, p), p) == 0,
        forall|q: Seq<char>| q != p ==> #[trigger] path_count(without_path(s, p), q) == path_count(s, q),
    decreases s.len(),
{
    if s.len() > 0 {
        let w = without_path(s.drop_last(), p);
        lemma_without_count(s.drop_last(), p);
        assert(w.push(s.last()).drop_last() =~= w);
        assert forall|q: Seq<char>| q != p implies #[trigger] path_count(without_path(s, p), q)
            == path_count(s, q) by {
            assert(path_count(w, q) == path_count(s.drop_last(), q));
        }
    }
}

/// Registering a file leaves the register in path order with exactly one
/// entry for the file's path, the new entry, and as many entries for every
/// other path as before.
pub proof fn law_register_one_per_path(items: Seq<AssetItem>, item: AssetItem)
    ensures
        path_sorted(registered(items, item)),
        path_count(registered(items, item), item.path@) == 1,
        registered(items, item).contains(item),
        forall|q: Seq<char>| q != item.path@ ==> #[trigger] path_count(registered(items, item), q) == path_count(items, q),
{
    let w = without_path(items, item.path@);
    lemma_without_count(items, item.path@);
    lemma_sort(w.push(item));
    assert(w.push(item).drop_last() =~= w);
    assert(w.push(item)[w.len() as int] == item);
    assert forall|q: Seq<char>| q != item.path@ implies #[trigger] path_count(registered(items, item), q)
        == path_count(items, q) by {
        assert(path_count(sort_by_path(w.push(item)), q) == path_count(w.push(item), q));
        assert(path_count(w, q) == path_count(items, q));
    }
}

} // verus!
