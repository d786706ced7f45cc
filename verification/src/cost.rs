//! The cost summary of a project: the recorded stage events grouped by
//! stage, channel or day, in the order each group first appears, with the
//! number of events, bytes and tokens of each group and of all events.
//! Money and wall time are floating point and are summed by the caller
//! along the group each event is given here.
use vstd::prelude::*;
use crate::model::ModelRef;
use crate::text::{blank, chars_eq, chars_of, is_blank, str_eq, string_of_range};

verus! {

/// What an event is grouped by.
#[derive(Debug, Clone, Copy, PartialEq, Eq, Structural)]
pub enum CostAxis {
    Stage,
    Channel,
    Day,
}

/// The counted part of a recorded stage event.
#[derive(Debug, Clone)]
pub struct CostRow {
    pub stage: String,
    pub channel_id: Option<String>,
    pub bytes: u64,
    pub prompt_tokens: u64,
    pub completion_tokens: u64,
    /// ISO time of the event.
    pub created_at: String,
}

/// The events grouped along one axis.
#[derive(Debug, Clone)]
pub struct CostGroups {
    /// The group keys, in the order each first appears.
    pub keys: Vec<String>,
    /// For each event, the index of its group in `keys`.
    pub group_of: Vec<usize>,
    /// Per group: number of events.
    pub events: Vec<u64>,
    /// Per group: bytes written.
    pub bytes: Vec<u64>,
    /// Per group: prompt and completion tokens.
    pub tokens: Vec<u64>,
    /// Bytes of all events.
    pub total_bytes: u64,
    /// Tokens of all events.
    pub total_tokens: u64,
}

/// The axis named by the `by` parameter.
pub open spec fn axis_named(by: Seq<char>) -> Option<CostAxis> {
    if by == "stage"@ {
        Some(CostAxis::Stage)
    } else if by == "channel"@ {
        Some(CostAxis::Channel)
    } else if by == "day"@ {
        Some(CostAxis::Day)
    } else {
        None
    }
}

/// The message of an unknown axis.
pub open spec fn bad_axis_message(by: Seq<char>) -> Seq<char> {
    "by 须为 stage|channel|day（当前 "@ + by + "）"@
}

/// Reads the `by` parameter of the cost summary.
pub fn parse_cost_axis(by: &str) -> (r: Result<CostAxis, String>)
    ensures
        match r {
            Ok(a) => axis_named(by@) == Some(a),
            Err(m) => axis_named(by@) is None && m@ == bad_axis_message(by@),
        },
{
    proof {
        reveal_strlit("stage");
        reveal_strlit("channel");
        reveal_strlit("day");
    }
    if str_eq(by, "stage") {
        Ok(CostAxis::Stage)
    } else if str_eq(by, "channel") {
        Ok(CostAxis::Channel)
    } else if str_eq(by, "day") {
        Ok(CostAxis::Day)
    } else {
        let mut m = String::new();
        m.append("by 须为 stage|channel|day（当前 ");
        m.append(by);
        m.append("）");
        Err(m)
    }
}

/// The group an event falls in: its stage; its channel (`local` when it
/// used none); or the date part (the first ten characters) of its time.
pub open spec fn cost_key(r: CostRow, axis: CostAxis) -> Seq<char> {
    match axis {
        CostAxis::Stage => r.stage@,
        CostAxis::Channel => match r.channel_id {
            Some(c) => c@,
            None => "local"@,
        },
        CostAxis::Day => if r.created_at@.len() <= 10 {
            r.created_at@
        } else {
            r.created_at@.take(10)
        },
    }
}

/// The distinct group keys of the events, in the order each first appears.
pub open spec fn first_keys(rows: Seq<CostRow>, axis: CostAxis) -> Seq<Seq<char>>
    decreases rows.len(),
{
    if rows.len() == 0 {
        seq![]
    } else {
        let f = first_keys(rows.drop_last(), axis);
        let k = cost_key(rows.last(), axis);
        if f.contains(k) {
            f
        } else {
            f.push(k)
        }
    }
}

/// The sum of `w` over the events in the group `k`.
pub open spec fn measure_in(rows: Seq<CostRow>, axis: CostAxis, k: Seq<char>, w: spec_fn(CostRow) -> nat) -> nat
    decreases rows.len(),
{
    if rows.len() == 0 {
        0
    } else {
        measure_in(rows.drop_last(), axis, k, w) + if cost_key(rows.last(), axis) == k {
            w(rows.last())
        } else {
            0nat
        }
    }
}

/// The sum of `w` over all events.
pub open spec fn measure_total(rows: Seq<CostRow>, w: spec_fn(CostRow) -> nat) -> nat
    decreases rows.len(),
{
    if rows.len() == 0 {
        0
    } else {
        measure_total(rows.drop_last(), w) + w(rows.last())
    }
}

/// One for each event.
pub open spec fn one_event() -> spec_fn(CostRow) -> nat {
    |r: CostRow| 1nat
}

/// The bytes of one event.
pub open spec fn row_bytes() -> spec_fn(CostRow) -> nat {
    |r: CostRow| r.bytes as nat
}

/// The tokens of one event: prompt and completion.
pub open spec fn row_tokens() -> spec_fn(CostRow) -> nat {
    |r: CostRow| (r.prompt_tokens + r.completion_tokens) as nat
}

/// The number of events in the group `k`.
pub open spec fn events_in(rows: Seq<CostRow>, axis: CostAxis, k: Seq<char>) -> nat {
    measure_in(rows, axis, k, one_event())
}

/// The bytes of the events in the group `k`.
pub open spec fn bytes_in(rows: Seq<CostRow>, axis: CostAxis, k: Seq<char>) -> nat {
    measure_in(rows, axis, k, row_bytes())
}

/// The tokens of the events in the group `k`.
pub open spec fn tokens_in(rows: Seq<CostRow>, axis: CostAxis, k: Seq<char>) -> nat {
    measure_in(rows, axis, k, row_tokens())
}

/// The bytes of all events.
pub open spec fn total_bytes(rows: Seq<CostRow>) -> nat {
    measure_total(rows, row_bytes())
}

/// The tokens of all events.
pub open spec fn total_tokens(rows: Seq<CostRow>) -> nat {
    measure_total(rows, row_tokens())
}

/// The sum of `w` over the groups `keys`.
pub open spec fn sum_over(rows: Seq<CostRow>, axis: CostAxis, keys: Seq<Seq<char>>, w: spec_fn(CostRow) -> nat) -> nat
    decreases keys.len(),
{
    if keys.len() == 0 {
        0
    } else {
        sum_over(rows, axis, keys.drop_last(), w) + measure_in(rows, axis, keys.last(), w)
    }
}

proof fn lemma_first_keys(rows: Seq<CostRow>, axis: CostAxis)
    ensures
        forall|k: Seq<char>| #[trigger] first_keys(rows, axis).contains(k) <==> exists|i: int|
            0 <= i < rows.len() && cost_key(#[trigger] rows[i], axis) == k,
        forall|a: int, b: int|
            0 <= a < b < first_keys(rows, axis).len() ==> #[trigger] first_keys(rows, axis)[a]
                != #[trigger] first_keys(rows, axis)[b],
    decreases rows.len(),
{
    if rows.len() > 0 {
        let t = rows.drop_last();
        lemma_first_keys(t, axis);
        let f = first_keys(t, axis);
        let k = cost_key(rows.last(), axis);
        assert forall|x: Seq<char>| #[trigger] first_keys(rows, axis).contains(x) <==> exists|i: int|
            0 <= i < rows.len() && cost_key(#[trigger] rows[i], axis) == x by {
            if first_keys(rows, axis).contains(x) {
                if f.contains(x) {
                    let i = choose|i: int| 0 <= i < t.len() && cost_key(#[trigger] t[i], axis) == x;
                    assert(rows[i] == t[i]);
                } else {
                    assert(first_keys(rows, axis) == f.push(k));
                    let j = choose|j: int| 0 <= j < f.push(k).len() && f.push(k)[j] == x;
                    if j < f.len() {
                        assert(f.contains(x));
                    }
                    assert(rows[rows.len() - 1] == rows.last());
                }
            }
            if exists|i: int| 0 <= i < rows.len() && cost_key(#[trigger] rows[i], axis) == x {
                let i = choose|i: int| 0 <= i < rows.len() && cost_key(#[trigger] rows[i], axis) == x;
                if i < t.len() {
                    assert(t[i] == rows[i]);
                    assert(f.contains(x));
                    if !f.contains(k) {
                        assert(f.push(k)[f.index_of(x)] == x);
                    }
                } else {
                    if !f.contains(k) {
                        assert(f.push(k)[f.len() as int] == x);
                    }
                }
            }
        }
    }
}

proof fn lemma_measure_bounded(rows: Seq<CostRow>, axis: CostAxis, k: Seq<char>, w: spec_fn(CostRow) -> nat)
    ensures
        measure_in(rows, axis, k, w) <= measure_total(rows, w),
    decreases rows.len(),
{
    if rows.len() > 0 {
        lemma_measure_bounded(rows.drop_last(), axis, k, w);
    }
}

proof fn lemma_events_bounded(rows: Seq<CostRow>, axis: CostAxis, k: Seq<char>)
    ensures
        events_in(rows, axis, k) <= rows.len(),
    decreases rows.len(),
{
    if rows.len() > 0 {
        lemma_events_bounded(rows.drop_last(), axis, k);
    }
}

proof fn lemma_sums_bounded(rows: Seq<CostRow>, axis: CostAxis, k: Seq<char>)
    ensures
        bytes_in(rows, axis, k) <= total_bytes(rows),
        tokens_in(rows, axis, k) <= total_tokens(rows),
        events_in(rows, axis, k) <= rows.len(),
{
    lemma_events_bounded(rows, axis, k);
    lemma_measure_bounded(rows, axis, k, row_bytes());
    lemma_measure_bounded(rows, axis, k, row_tokens());
}

proof fn lemma_total_prefix(rows: Seq<CostRow>, i: int, w: spec_fn(CostRow) -> nat)
    requires
        0 <= i <= rows.len(),
    ensures
        measure_total(rows.take(i), w) <= measure_total(rows, w),
    decreases rows.len() - i,
{
    if i < rows.len() {
        lemma_total_prefix(rows, i + 1, w);
        assert(rows.take(i + 1).drop_last() =~= rows.take(i));
    } else {
        assert(rows.take(i) =~= rows);
    }
}

proof fn lemma_totals_prefix(rows: Seq<CostRow>, i: int)
    requires
        0 <= i <= rows.len(),
    ensures
        total_bytes(rows.take(i)) <= total_bytes(rows),
        total_tokens(rows.take(i)) <= total_tokens(rows),
{
    lemma_total_prefix(rows, i, row_bytes());
    lemma_total_prefix(rows, i, row_tokens());
}

proof fn lemma_sum_over_push(t: Seq<CostRow>, x: CostRow, axis: CostAxis, keys: Seq<Seq<char>>, w: spec_fn(CostRow) -> nat)
    requires
        forall|a: int, b: int| 0 <= a < b < keys.len() ==> #[trigger] keys[a] != #[trigger] keys[b],
    ensures
        sum_over(t.push(x), axis, keys, w) == sum_over(t, axis, keys, w) + if keys.contains(cost_key(x, axis)) {
            w(x)
        } else {
            0nat
        },
    decreases keys.len(),
{
    let r = t.push(x);
    assert(r.drop_last() =~= t);
    if keys.len() > 0 {
        let d = keys.drop_last();
        assert forall|a: int, b: int| 0 <= a < b < d.len() implies #[trigger] d[a] != #[trigger] d[b] by {
            assert(keys[a] != keys[b]);
        }
        lemma_sum_over_push(t, x, axis, d, w);
        let k = cost_key(x, axis);
        if keys.last() == k {
            assert(!d.contains(k)) by {
                if d.contains(k) {
                    let j = d.index_of(k);
                    assert(keys[j] != keys[keys.len() - 1]);
                }
            }
            assert(keys.contains(k)) by {
                assert(keys[keys.len() - 1] == k);
            }
        } else {
            if keys.contains(k) {
                let j = keys.index_of(k);
                assert(j != keys.len() - 1);
                assert(d[j] == k);
            }
            if d.contains(k) {
                let j = d.index_of(k);
                assert(keys[j] == k);
            }
        }
    }
}

/// The groups split the events: summed over the groups, the events, the
/// bytes and the tokens (and any other count of each event) give those of
/// all events, each event counted in exactly one group.
pub proof fn law_groups_partition(rows: Seq<CostRow>, axis: CostAxis, w: spec_fn(CostRow) -> nat)
    ensures
        sum_over(rows, axis, first_keys(rows, axis), w) == measure_total(rows, w),
    decreases rows.len(),
{
    if rows.len() > 0 {
        let t = rows.drop_last();
        let x = rows.last();
        let k = cost_key(x, axis);
        law_groups_partition(t, axis, w);
        lemma_first_keys(t, axis);
        lemma_first_keys(rows, axis);
        let f = first_keys(t, axis);
        assert(t.push(x) =~= rows);
        lemma_sum_over_push(t, x, axis, f, w);
        if !f.contains(k) {
            lemma_zero_measure(t, axis, k, w);
            assert(first_keys(rows, axis) == f.push(k));
            assert(f.push(k).drop_last() =~= f);
        }
    }
}

/// The group key of one event.
pub fn row_key(r: &CostRow, axis: CostAxis) -> (k: String)
    ensures
        k@ == cost_key(*r, axis),
{
    match axis {
        CostAxis::Stage => r.stage.clone(),
        CostAxis::Channel => match &r.channel_id {
            Some(c) => c.clone(),
            None => {
                proof {
                    reveal_strlit("local");
                }
                String::from_str("local")
            },
        },
        CostAxis::Day => {
            let v = chars_of(r.created_at.as_str());
            let n = if v.len() <= 10 {
                v.len()
            } else {
                10
            };
            let d = string_of_range(&v, 0, n);
            assert(v@.subrange(0, n as int) =~= if v@.len() <= 10 {
                v@
            } else {
                v@.take(10)
            });
            d
        },
    }
}

/// Whether the groups hold what the events `rows` give along `axis`.
pub open spec fn tallied(g: CostGroups, rows: Seq<CostRow>, axis: CostAxis) -> bool {
    let fk = first_keys(rows, axis);
    &&& g.keys@.len() == fk.len()
    &&& g.events@.len() == fk.len()
    &&& g.bytes@.len() == fk.len()
    &&& g.tokens@.len() == fk.len()
    &&& g.group_of@.len() == rows.len()
    &&& forall|j: int| 0 <= j < fk.len() ==> #[trigger] g.keys@[j]@ == fk[j]
    &&& forall|j: int| 0 <= j < fk.len() ==> #[trigger] g.events@[j] == events_in(rows, axis, fk[j])
    &&& forall|j: int| 0 <= j < fk.len() ==> #[trigger] g.bytes@[j] == bytes_in(rows, axis, fk[j])
    &&& forall|j: int| 0 <= j < fk.len() ==> #[trigger] g.tokens@[j] == tokens_in(rows, axis, fk[j])
    &&& forall|i: int|
        0 <= i < rows.len() ==> #[trigger] g.group_of@[i] < fk.len() && fk[g.group_of@[i] as int] == cost_key(
            rows[i],
            axis,
        )
    &&& g.total_bytes == total_bytes(rows)
    &&& g.total_tokens == total_tokens(rows)
}

fn key_index(keys: &Vec<String>, k: &Vec<char>) -> (r: Option<usize>)
    ensures
        match r {
            Some(j) => j < keys@.len() && keys@[j as int]@ == k@,
            None => forall|j: int| 0 <= j < keys@.len() ==> #[trigger] keys@[j]@ != k@,
        },
{
    let mut j: usize = 0;
    while j < keys.len()
        invariant
            j <= keys@.len(),
            forall|t: int| 0 <= t < j ==> #[trigger] keys@[t]@ != k@,
        decreases keys.len() - j,
    {
        let c = chars_of(keys[j].as_str());
        if chars_eq(&c, k) {
            return Some(j);
        }
        j = j + 1;
    }
    None
}

/// Groups the events along `axis` (see [`tallied`]).
#[verifier::rlimit(40)]
pub fn group_costs(rows: &Vec<CostRow>, axis: CostAxis) -> (g: CostGroups)
    requires
        total_bytes(rows@) <= i64::MAX,
        total_tokens(rows@) <= i64::MAX,
    ensures
        tallied(g, rows@, axis),
{
    let mut keys: Vec<String> = Vec::new();
    let mut group_of: Vec<usize> = Vec::new();
    let mut events: Vec<u64> = Vec::new();
    let mut bytes: Vec<u64> = Vec::new();
    let mut tokens: Vec<u64> = Vec::new();
    let mut tb: u64 = 0;
    let mut tt: u64 = 0;
    let mut i: usize = 0;
    while i < rows.len()
        invariant
            i <= rows@.len(),
            total_bytes(rows@) <= i64::MAX,
            total_tokens(rows@) <= i64::MAX,
            tallied(
                CostGroups {
                    keys: keys,
                    group_of: group_of,
                    events: events,
                    bytes: bytes,
                    tokens: tokens,
                    total_bytes: tb,
                    total_tokens: tt,
                },
                rows@.take(i as int),
                axis,
            ),
        decreases rows.len() - i,
    {
        let ghost pre = rows@.take(i as int);
        let ghost post = rows@.take(i + 1);
        let ghost fk = first_keys(pre, axis);
        let ghost r = rows@[i as int];
        proof {
            assert(post.drop_last() =~= pre);
            assert(post.last() == r);
            lemma_totals_prefix(rows@, i + 1);
            lemma_first_keys(pre, axis);
            lemma_first_keys(post, axis);
        }
        let k = row_key(&rows[i], axis);
        let kv = chars_of(k.as_str());
        let ghost key = k@;
        let t = rows[i].prompt_tokens + rows[i].completion_tokens;
        assert(t == (row_tokens())(rows@[i as int]));
        match key_index(&keys, &kv) {
            Some(j) => {
                proof {
                    assert(fk[j as int] == key);
                    assert(fk.contains(key));
                    assert(first_keys(post, axis) == fk);
                    lemma_sums_bounded(post, axis, key);
                }
                let e = events[j];
                let b = bytes[j];
                let tk = tokens[j];
                events.set(j, e + 1);
                bytes.set(j, b + rows[i].bytes);
                tokens.set(j, tk + t);
                group_of.push(j);
            },
            None => {
                proof {
                    assert(!fk.contains(key)) by {
                        if fk.contains(key) {
                            let j = fk.index_of(key);
                            assert(keys@[j]@ == fk[j]);
                        }
                    }
                    assert(first_keys(post, axis) == fk.push(key));
                    lemma_sums_bounded(post, axis, key);
                    lemma_zero_events(pre, axis, key);
                }
                let g = keys.len();
                keys.push(k);
                events.push(1);
                bytes.push(rows[i].bytes);
                tokens.push(t);
                group_of.push(g);
            },
        }
        tb = tb + rows[i].bytes;
        tt = tt + t;
        proof {
            let fk2 = first_keys(post, axis);
            assert forall|j: int| 0 <= j < fk2.len() implies events@[j] == events_in(post, axis, fk2[j])
                && bytes@[j] == bytes_in(post, axis, fk2[j]) && tokens@[j] == tokens_in(post, axis, fk2[j]) by {
                if j < fk.len() {
                    assert(fk2[j] == fk[j]);
                }
            }
            assert forall|x: int| 0 <= x < post.len() implies #[trigger] group_of@[x] < fk2.len() && fk2[group_of@[x] as int]
                == cost_key(post[x], axis) by {
                if x < pre.len() {
                    assert(post[x] == pre[x]);
                }
            }
        }
        i = i + 1;
    }
    assert(rows@.take(rows@.len() as int) =~= rows@);
    CostGroups {
        keys: keys,
        group_of: group_of,
        events: events,
        bytes: bytes,
        tokens: tokens,
        total_bytes: tb,
        total_tokens: tt,
    }
}

proof fn lemma_zero_measure(rows: Seq<CostRow>, axis: CostAxis, k: Seq<char>, w: spec_fn(CostRow) -> nat)
    requires
        forall|i: int| 0 <= i < rows.len() ==> cost_key(#[trigger] rows[i], axis) != k,
    ensures
        measure_in(rows, axis, k, w) == 0,
    decreases rows.len(),
{
    if rows.len() > 0 {
        let t = rows.drop_last();
        assert forall|i: int| 0 <= i < t.len() implies cost_key(#[trigger] t[i], axis) != k by {
            assert(t[i] == rows[i]);
        }
        lemma_zero_measure(t, axis, k, w);
        assert(rows[rows.len() - 1] == rows.last());
    }
}

proof fn lemma_zero_events(rows: Seq<CostRow>, axis: CostAxis, k: Seq<char>)
    requires
        forall|i: int| 0 <= i < rows.len() ==> cost_key(#[trigger] rows[i], axis) != k,
    ensures
        events_in(rows, axis, k) == 0,
        bytes_in(rows, axis, k) == 0,
        tokens_in(rows, axis, k) == 0,
{
    lemma_zero_measure(rows, axis, k, one_event());
    lemma_zero_measure(rows, axis, k, row_bytes());
    lemma_zero_measure(rows, axis, k, row_tokens());
}

/// The tokens an event is priced by: the total when the model reported one,
/// prompt and completion together otherwise.
pub open spec fn priced_tokens(t: Option<(u32, u32, u32)>) -> nat {
    match t {
        Some((p, c, total)) => if total > 0 {
            total as nat
        } else {
            (p + c) as nat
        },
        None => 0,
    }
}

/// The tokens an event is priced by (see [`priced_tokens`]).
pub fn priced_token_count(tokens: Option<(u32, u32, u32)>) -> (n: u64)
    ensures
        n == priced_tokens(tokens),
{
    match tokens {
        Some((p, c, total)) => if total > 0 {
            total as u64
        } else {
            p as u64 + c as u64
        },
        None => 0,
    }
}

/// The text of an optional value when it is not blank.
pub open spec fn present(o: Option<String>) -> Option<Seq<char>> {
    match o {
        Some(s) => if is_blank(s@) {
            None
        } else {
            Some(s@)
        },
        None => None,
    }
}

/// Where an event's model came from: the source, the channel when one is
/// named, and the model, falling back to the channel's default model
/// (`channel_default`) when none is named. An event without a model (the
/// local composition) has none of them.
pub open spec fn event_origin(mr: Option<ModelRef>, channel_default: Option<String>) -> (Seq<char>, Option<Seq<char>>, Option<Seq<char>>) {
    match mr {
        Some(m) => (m.source@, present(m.channel_id), match present(m.model) {
            Some(x) => Some(x),
            None => match channel_default {
                Some(d) => if m.channel_id is Some {
                    Some(d@)
                } else {
                    None
                },
                None => None,
            },
        }),
        None => (Seq::<char>::empty(), None, None),
    }
}

fn present_copy(o: &Option<String>) -> (r: Option<String>)
    ensures
        match r {
            Some(s) => present(*o) == Some(s@),
            None => present(*o) is None,
        },
{
    match o {
        Some(s) => if blank(s.as_str()) {
            None
        } else {
            Some(s.clone())
        },
        None => None,
    }
}

/// Where an event's model came from (see [`event_origin`]).
pub fn event_source(mr: &Option<ModelRef>, channel_default: Option<String>) -> (r: (String, Option<String>, Option<String>))
    ensures
        (r.0@, match r.1 {
            Some(c) => Some(c@),
            None => None,
        }, match r.2 {
            Some(x) => Some(x@),
            None => None,
        }) == event_origin(*mr, channel_default),
{
    match mr {
        Some(m) => {
            let model = match present_copy(&m.model) {
                Some(x) => Some(x),
                None => match channel_default {
                    Some(d) => if m.channel_id.is_some() {
                        Some(d)
                    } else {
                        None
                    },
                    None => None,
                },
            };
            (m.source.clone(), present_copy(&m.channel_id), model)
        },
        None => (String::new(), None, None),
    }
}

/// The cost summary's grouping: the axis named by `by`, then the events
/// grouped along it (see [`tallied`]).
pub fn cost_groups(rows: &Vec<CostRow>, by: &str) -> (r: Result<CostGroups, String>)
    requires
        total_bytes(rows@) <= i64::MAX,
        total_tokens(rows@) <= i64::MAX,
    ensures
        match r {
            Ok(g) => axis_named(by@) is Some && tallied(g, rows@, axis_named(by@).unwrap()),
            Err(m) => axis_named(by@) is None && m@ == bad_axis_message(by@),
        },
{
    match parse_cost_axis(by) {
        Ok(a) => Ok(group_costs(rows, a)),
        Err(m) => Err(m),
    }
}

} // verus!
